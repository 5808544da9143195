use secs_sim::catalog::{new_blank_message, MessageCatalog};
use secs_sim::commands::{
    app_load_state, message_send_result, scenario_get, session_create_from_template,
    session_create_loopback_pair, session_import_smd, startup_load,
};
use secs_sim::config::{ConnectionMode, Role, SessionConfig};
use secs_sim::persistence::{AppPersistState, AppSettings, SessionSnapshot};
use secs_sim::session::SessionManager;
use secs_sim::sml_bridge::ReplyInfo;

const ONE_MESSAGE: &str = r#"<?xml version="1.0"?>
<SECSMessage>
  <AreYouThere>
    <Header>
      <MessageName>AreYouThere</MessageName>
      <Description PairName="S1F1">Are You There Request</Description>
      <Stream>1</Stream>
      <Function>1</Function>
      <Direction>H-&gt;E</Direction>
      <Wait>True</Wait>
      <AutoReply>True</AutoReply>
      <NoLogging>False</NoLogging>
    </Header>
    <DataItem />
  </AreYouThere>
</SECSMessage>"#;

#[test]
fn create_from_known_and_unknown_templates() {
    let mut m = SessionManager::new();
    let s = session_create_from_template(&mut m, "host-active-5001").unwrap();
    assert_eq!(s.name, "Host-2");
    let c = m.get_config(&s.id).unwrap();
    assert_eq!(c.role, Role::Host);
    assert_eq!(c.mode, ConnectionMode::Active);
    assert_eq!(c.port, 5001);
    assert_eq!(c.session_id, 11);
    let e = session_create_from_template(&mut m, "nope").unwrap_err();
    assert_eq!(e, "unknown template: nope");
    assert_eq!(m.list().len(), 1);
}

#[test]
fn loopback_pair_defaults_to_port_5000() {
    let mut m = SessionManager::new();
    let pair = session_create_loopback_pair(&mut m, None);
    assert_eq!(pair.len(), 2);
    assert_eq!(pair[0].name, "Equip");
    assert_eq!(pair[1].name, "Host");
    assert_eq!(m.get_config(&pair[0].id).unwrap().port, 5000);
    assert_eq!(m.get_config(&pair[1].id).unwrap().role, Role::Host);
    let other = session_create_loopback_pair(&mut m, Some(6001));
    assert_eq!(m.get_config(&other[1].id).unwrap().port, 6001);
    assert_eq!(m.list().len(), 4);
}

#[test]
fn import_smd_names_its_source() {
    let mut m = SessionManager::new();
    let s = m.create(None);
    let c = session_import_smd(&mut m, &s.id, ONE_MESSAGE, None).unwrap();
    assert_eq!(c.source, "import.smd");
    assert_eq!(c.messages.len(), 1);
    let c = session_import_smd(&mut m, &s.id, ONE_MESSAGE, Some("a.smd".to_string())).unwrap();
    assert_eq!(c.source, "a.smd");
    assert_eq!(m.get_catalog(&s.id).unwrap().source, "a.smd");
    assert!(session_import_smd(&mut m, "missing", ONE_MESSAGE, None).is_err());
}

#[test]
fn scenario_name_defaults() {
    let mut m = SessionManager::new();
    m.create(None);
    let sc = scenario_get(&m, None);
    assert_eq!(sc.name, "secs-scenario");
    assert_eq!(sc.sessions.len(), 1);
    assert_eq!(scenario_get(&m, Some("lab".to_string())).name, "lab");
}

fn loaded(restore: bool) -> AppPersistState {
    let mut cfg = SessionConfig::default();
    cfg.name = "Loaded".to_string();
    AppPersistState {
        version: 1,
        settings: AppSettings { theme: "light".to_string(), log_capacity: 10, restore_sessions: restore },
        sessions: vec![SessionSnapshot { id: "x1".to_string(), config: cfg, catalog: MessageCatalog::default() }],
    }
}

#[test]
fn loading_state_restores_sessions_only_when_asked() {
    let mut m = SessionManager::new();
    m.create(None);
    app_load_state(&mut m, loaded(false)).unwrap();
    assert_eq!(m.settings().theme, "light");
    assert_eq!(m.list().len(), 1);
    assert_ne!(m.list()[0].id, "x1");
    app_load_state(&mut m, loaded(true)).unwrap();
    let list = m.list();
    assert_eq!(list.len(), 1);
    assert_eq!(list[0].id, "x1");
    assert_eq!(list[0].name, "Loaded");
}

#[test]
fn sending_a_catalog_message_reports_its_summary() {
    let mut msg = new_blank_message();
    msg.message_name = "AreYouThere".to_string();
    let r = message_send_result(&msg, None);
    assert_eq!(r.summary, "S1F1 W (AreYouThere)");
    assert!(r.waiting);
    msg.wait = false;
    msg.function = 2;
    let reply = ReplyInfo { stream: 1, function: 2, summary: "S1F2".to_string(), sml: None, hex: None };
    let r = message_send_result(&msg, Some(reply));
    assert_eq!(r.summary, "S1F2 (AreYouThere)");
    assert!(!r.waiting);
    assert!(r.reply.is_some());
}

#[test]
fn startup_restores_only_a_non_empty_saved_list() {
    let mut m = SessionManager::new();
    m.create(None);
    let mut empty = loaded(true);
    empty.sessions.clear();
    startup_load(&mut m, empty).unwrap();
    assert_eq!(m.list().len(), 1);
    assert_eq!(m.settings().theme, "light");
    startup_load(&mut m, loaded(true)).unwrap();
    assert_eq!(m.list()[0].id, "x1");
}
