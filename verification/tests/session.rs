use secs_sim::catalog::{new_blank_message, MessageCatalog};
use secs_sim::config::{ConnectionMode, Role, SessionConfig};
use secs_sim::events::{
    hsms_state_label, looks_like_ipv6, should_hold_primary, socket_plan, socket_spec, HsmsState,
    PendingPrimary, SessionEvent, SocketPlan,
};
use secs_sim::gem::{builtin_label, try_auto_reply, BuiltinHandlers, LiveGem};
use secs_sim::log::{
    export_logs_text, format_sml_like, hex_encode, LogDirection, LogEntry, SessionLog,
};
use secs_sim::persistence::{AppPersistState, AppSettings, SessionSnapshot, ScenarioFile};
use secs_sim::rules::{BuiltinKind, HsmsHeader};
use secs_sim::secs2::Secs2;
use secs_sim::session::SessionManager;
use secs_sim::sml_bridge::reply_info;
use secs_sim::templates::{builtin_templates, loopback_pair_templates};

#[test]
fn ring_buffer_evicts_oldest() {
    let mut log = SessionLog::new(3);
    for i in 0..5 {
        log.push(LogEntry::system(format!("n{i}")));
    }
    assert_eq!(log.len(), 3);
    let entries = log.entries();
    assert_eq!(entries[0].summary, "n2");
    assert_eq!(entries[2].summary, "n4");
}

#[test]
fn export_text_and_json() {
    let mut log = SessionLog::new(10);
    log.push(LogEntry::system("hello".to_string()));
    let entries = log.entries();
    let text = export_logs_text(&entries);
    assert!(text.contains("SYS"));
    assert!(text.contains("hello"));
}

#[test]
fn restore_snapshot_replaces_sessions() {
    let mut g = SessionManager::new();
    let mut temp = SessionConfig::default();
    temp.name = "Temp".to_string();
    g.create(Some(temp));
    assert_eq!(g.list().len(), 1);
    let mut equip = SessionConfig::default();
    equip.name = "Equip".to_string();
    equip.role = Role::Equipment;
    equip.mode = ConnectionMode::Passive;
    let mut host = SessionConfig::default();
    host.name = "Host".to_string();
    host.role = Role::Host;
    host.mode = ConnectionMode::Active;
    g.restore_snapshot(AppPersistState {
        version: 1,
        settings: AppSettings::default(),
        sessions: vec![
            SessionSnapshot { id: "e1".to_string(), config: equip, catalog: MessageCatalog::default() },
            SessionSnapshot { id: "h1".to_string(), config: host, catalog: MessageCatalog::default() },
        ],
    })
    .unwrap();
    let list = g.list();
    assert_eq!(list.len(), 2);
    assert!(list.iter().any(|s| s.name == "Equip"));
    assert!(list.iter().any(|s| s.name == "Host"));
}

#[test]
fn templates_non_empty() {
    let t = builtin_templates();
    assert!(t.len() >= 4);
    assert!(t.iter().any(|x| x.config.role == Role::Equipment));
    assert!(t.iter().any(|x| x.config.role == Role::Host));
    let pair = loopback_pair_templates(5000);
    assert_eq!(pair.len(), 2);
    assert_eq!(pair[0].port, pair[1].port);
}

#[test]
fn log_keeps_newest_with_capacity_one() {
    let mut log = SessionLog::new(0);
    assert!(log.is_empty());
    log.push(LogEntry::system("a".to_string()));
    log.push(LogEntry::system("b".to_string()));
    assert_eq!(log.len(), 1);
    assert_eq!(log.entries()[0].summary, "b");
    log.clear();
    assert!(log.is_empty());
}

fn data_header(stream: u8, function: u8, wbit: bool) -> HsmsHeader {
    HsmsHeader::from_bytes(&[0, 7, stream | if wbit { 0x80 } else { 0 }, function, 0, 0, 0, 0, 1, 0])
}

#[test]
fn log_counts_and_entry_from_message() {
    let mut log = SessionLog::default();
    let body = Secs2::List(vec![Secs2::Binary(vec![0])]);
    let tx = LogEntry::from_hsms(&data_header(1, 13, true), &body, "Data", None, LogDirection::Tx);
    assert_eq!(tx.summary, "S1F13 W");
    assert_eq!(tx.stream, Some(1));
    assert_eq!(tx.session, Some(7));
    assert_eq!(tx.system_bytes, Some(256));
    assert_eq!(tx.sml.as_deref(), Some("S1F13 W\n<L[1]>\n  <B[1] 00>"));
    let rx = LogEntry::from_hsms(&data_header(1, 14, false), &Secs2::Empty, "Data", Some(&[0xAB, 0x01]), LogDirection::Rx);
    assert_eq!(rx.hex.as_deref(), Some("AB 01"));
    let sel = HsmsHeader::from_bytes(&[0xFF, 0xFF, 0, 0, 0, 1, 0, 0, 0, 1]);
    let ctl = LogEntry::from_hsms(&sel, &Secs2::Empty, "SelectReq", None, LogDirection::Rx);
    assert_eq!(ctl.summary, "SelectReq");
    assert!(ctl.stream.is_none() && ctl.sml.is_none());
    log.push(tx);
    log.push(rx);
    log.push(ctl);
    assert_eq!(log.count_data_sf(1, 13), 1);
    assert_eq!(log.count_data_sf(1, 14), 1);
    assert_eq!(log.count_direction(LogDirection::Rx), 2);
    assert_eq!(log.count_direction(LogDirection::System), 0);
}

#[test]
fn sml_like_dump() {
    let body = Secs2::List(vec![
        Secs2::Ascii("a\"b\n".to_string()),
        Secs2::Boolean(vec![true, false]),
        Secs2::Uint2(vec![1, 2]),
        Secs2::List(vec![]),
        Secs2::Empty,
    ]);
    assert_eq!(
        format_sml_like(2, 17, false, &body),
        "S2F17\n<L[5]>\n  <A[4] \"a\\\"b\\n\">\n  <BOOLEAN[2] T F>\n  <U2[2] [1, 2]>\n  <L[0]>\n  <EMPTY>"
    );
    assert_eq!(hex_encode(&[0x00, 0xFF, 0x1A]).iter().collect::<String>(), "00 FF 1A");
}

#[test]
fn text_export_lines() {
    let mut e = LogEntry::system("a\tb".to_string());
    e.timestamp_ms = 10;
    e.sml = Some("x\ny".to_string());
    e.session = Some(-1);
    let text = export_logs_text(&[e]);
    assert_eq!(
        text,
        "# SECS Simulator log export\n# time\tdir\tsummary\tsys\tsession\tsml\thex\n10\tSYS\ta b\t-\t-1\tx\\ny\t\n"
    );
}

#[test]
fn manager_create_update_remove() {
    let mut g = SessionManager::new();
    let s = g.create(None);
    assert_eq!(s.name, "Session");
    let mut blank = SessionConfig::default();
    blank.name = "  ".to_string();
    let b = g.create(Some(blank));
    assert_eq!(b.name, "Session 2");
    assert!(!b.open);
    assert_eq!(b.hsms_state, "NotConnected");
    let mut cfg = g.get_config(&b.id).unwrap();
    cfg.port = 6000;
    g.update_config(&b.id, cfg).unwrap();
    assert_eq!(g.get_config(&b.id).unwrap().port, 6000);
    g.mark_open(&b.id, "NotSelected").unwrap();
    assert_eq!(
        g.update_config(&b.id, SessionConfig::default()).unwrap_err().message(),
        "cannot update full config while session is open"
    );
    assert_eq!(g.remove(&b.id).unwrap_err().message(), "session is open; close it before remove");
    assert_eq!(g.begin_open(&b.id).unwrap_err().message(), "session already open");
    assert!(g.check_send(&b.id).is_ok());
    g.begin_close(&b.id).unwrap();
    assert_eq!(g.check_send(&b.id).unwrap_err().message(), "session is not open");
    let closed = g.finish_close(&b.id).unwrap();
    assert_eq!(closed.hsms_state, "NotConnected");
    assert!(!closed.open);
    let logs = g.get_logs(&b.id).unwrap();
    assert_eq!(logs.len(), 1);
    assert_eq!(logs[0].summary, "closed");
    assert_eq!(logs[0].direction, LogDirection::System);
    assert!(g.finish_close("missing").is_err());
    g.remove(&b.id).unwrap();
    assert_eq!(g.get_config(&b.id).unwrap_err().message(), format!("session not found: {}", b.id));
    assert_eq!(g.list().len(), 1);
}

#[test]
fn manager_catalog_and_logs() {
    let mut g = SessionManager::new();
    let s = g.create(None);
    let m = new_blank_message();
    let mid = m.id.clone();
    let cat = g.upsert_message(&s.id, m).unwrap();
    assert_eq!(cat.len(), 1);
    let cat = g.remove_message(&s.id, &mid).unwrap();
    assert!(cat.is_empty());
    assert!(g.push_log(&s.id, LogEntry::system("hi".to_string())));
    assert!(!g.push_log("nope", LogEntry::system("x".to_string())));
    assert_eq!(g.get_logs(&s.id).unwrap().len(), 1);
    g.clear_logs(&s.id).unwrap();
    assert!(g.get_logs(&s.id).unwrap().is_empty());
    assert!(g.set_hsms_state(&s.id, "Selected"));
    assert_eq!(g.get_summary(&s.id).unwrap().hsms_state, "Selected");
}

#[test]
fn list_sorted_by_name_then_id() {
    let mut g = SessionManager::new();
    let mut a = SessionConfig::default();
    a.name = "b".to_string();
    let mut b = SessionConfig::default();
    b.name = "a".to_string();
    g.create(Some(a));
    g.create(Some(b));
    let names: Vec<String> = g.list().into_iter().map(|s| s.name).collect();
    assert_eq!(names, vec!["a".to_string(), "b".to_string()]);
    let snap = g.snapshot();
    assert_eq!(snap.version, 1);
    assert_eq!(snap.sessions[0].config.name, "a");
    let sc = g.to_scenario("demo".to_string());
    assert_eq!(sc.name, "demo");
    assert_eq!(sc.sessions.len(), 2);
}

#[test]
fn restore_refused_while_open_and_scenario_import() {
    let mut g = SessionManager::new();
    let s = g.create(None);
    g.mark_open(&s.id, "Selected").unwrap();
    let err = g.restore_snapshot(AppPersistState::default()).unwrap_err();
    assert_eq!(err.message(), "close all sessions before restore/import");
    g.begin_close(&s.id).unwrap();
    let mut sc = ScenarioFile::default();
    sc.sessions.push(SessionSnapshot { id: "x".to_string(), config: SessionConfig::default(), catalog: MessageCatalog::default() });
    sc.sessions.push(SessionSnapshot { id: "x".to_string(), config: SessionConfig::default(), catalog: MessageCatalog::default() });
    assert_eq!(g.import_scenario(sc).unwrap(), 2);
    assert_eq!(g.list().len(), 1);
}

#[test]
fn events_and_states() {
    let e = SessionEvent::state("s".to_string(), true, "Selected".to_string());
    assert_eq!(e.event_type, "state");
    assert_eq!(e.open, Some(true));
    let e = SessionEvent::flow_progress("s".to_string(), "f".to_string(), "n".to_string(), "ok".to_string());
    assert_eq!(e.event_type, "flow_progress");
    assert_eq!(e.node_id.as_deref(), Some("n"));
    assert_eq!(SessionEvent::rule_hit("s".to_string(), "catalog".to_string(), "S1F1".to_string()).event_type, "rule_hit");
    assert_eq!(hsms_state_label(HsmsState::NotSelected), "NotSelected");
}

#[test]
fn pending_primary_taken_by_its_secondary() {
    let mut p: PendingPrimary<&str> = PendingPrimary::new();
    p.hold(6, 11, "s6f11");
    assert_eq!(p.take_pending_reply(6, 13), None);
    assert_eq!(p.take_pending_reply(6, 12), Some("s6f11"));
    assert_eq!(p.take_pending_reply(6, 12), None);
    assert!(should_hold_primary(true, 11, false));
    assert!(!should_hold_primary(true, 12, false));
    assert!(!should_hold_primary(true, 11, true));
}

#[test]
fn only_an_even_send_answers_the_kept_primary() {
    let mut p: PendingPrimary<&str> = PendingPrimary::new();
    p.hold(1, 13, "s1f13");
    assert_eq!(p.reply_target(1, 13), None);
    assert_eq!(p.reply_target(2, 14), None);
    assert_eq!(p.reply_target(1, 14), Some("s1f13"));
    assert_eq!(p.reply_target(1, 14), None);
}

#[test]
fn socket_addresses() {
    assert!(looks_like_ipv6("::1"));
    assert_eq!(socket_spec("::1", 5000), "[::1]:5000");
    assert_eq!(socket_spec("[::1]", 5000), "[::1]:5000");
    let mut c = SessionConfig::default();
    match socket_plan(&c) {
        SocketPlan::Listen { spec } => assert_eq!(spec, "0.0.0.0:5000"),
        _ => panic!("passive listens"),
    }
    c.ip = "::1".to_string();
    match socket_plan(&c) {
        SocketPlan::Listen { spec } => assert_eq!(spec, "[::]:5000"),
        _ => panic!("passive listens"),
    }
    c.mode = ConnectionMode::Active;
    c.ip = " 192.168.1.10 ".to_string();
    match socket_plan(&c) {
        SocketPlan::Connect { host, port } => assert_eq!((host.as_str(), port), ("192.168.1.10", 5000)),
        _ => panic!("active connects"),
    }
    c.ip = "  ".to_string();
    assert!(matches!(socket_plan(&c), SocketPlan::EmptyHost));
}

#[test]
fn builtin_auto_replies() {
    let equip = BuiltinHandlers::for_role(&Role::Equipment);
    let host = BuiltinHandlers::for_role(&Role::Host);
    assert!(!host.s1f13 && host.s6f11 && host.s5f1);
    assert_eq!(BuiltinHandlers::default(), equip);
    assert_eq!(try_auto_reply(&data_header(1, 13, true), &equip, true), Some(BuiltinKind::S1F14));
    assert_eq!(try_auto_reply(&data_header(1, 13, false), &equip, true), None);
    assert_eq!(try_auto_reply(&data_header(1, 13, true), &host, false), None);
    assert_eq!(try_auto_reply(&data_header(6, 11, true), &host, false), Some(BuiltinKind::S6F12));
    assert_eq!(builtin_label(BuiltinKind::S2F18), "s2f18");
    let live = LiveGem::new(&SessionConfig::default(), equip);
    assert!(live.config.is_equip);
    assert_eq!(live.config.mdln, "SECS-SIM");
}

#[test]
fn reply_info_of_data_reply() {
    let info = reply_info(&data_header(1, 2, false), &Secs2::List(vec![]), "Data", None);
    assert_eq!(info.summary, "S1F2");
    assert_eq!(info.sml.as_deref(), Some("S1F2\n<L[0]>"));
    assert!(info.hex.is_none());
}

#[test]
fn restoring_a_snapshot_gives_back_the_sessions() {
    let mut g = SessionManager::new();
    let mut a = SessionConfig::default();
    a.name = "B-side".to_string();
    let mut b = SessionConfig::default();
    b.name = "A-side".to_string();
    b.port = 6000;
    let sa = g.create(Some(a));
    let sb = g.create(Some(b));
    let mut cat = MessageCatalog::default();
    cat.upsert(new_blank_message());
    g.set_catalog(&sa.id, cat).unwrap();
    let snap = g.snapshot();
    let mut h = SessionManager::new();
    h.restore_snapshot(snap).unwrap();
    let mut ids: Vec<String> = h.list().into_iter().map(|s| s.id).collect();
    ids.sort();
    let mut want = vec![sa.id.clone(), sb.id.clone()];
    want.sort();
    assert_eq!(ids, want);
    assert_eq!(h.get_config(&sb.id).unwrap().port, 6000);
    assert_eq!(h.get_catalog(&sa.id).unwrap().messages.len(), 1);
    assert!(h.list().iter().all(|s| !s.open && s.hsms_state == "NotConnected"));
}
