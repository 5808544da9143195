use secs_sim::config::{ConnectionMode, Role, SessionConfig};
use secs_sim::events::{hsms_settings, open_note, LinkWatch, SocketPlan};

fn cfg(mode: ConnectionMode, ip: &str, port: u16) -> SessionConfig {
    SessionConfig {
        name: "t".to_string(),
        role: Role::Equipment,
        mode,
        ip: ip.to_string(),
        port,
        session_id: 10,
        ..SessionConfig::default()
    }
}

#[test]
fn build_hsms_passive_binds_unspecified_v4() {
    let c = hsms_settings(&cfg(ConnectionMode::Passive, "127.0.0.1", 5000)).unwrap();
    match c.socket {
        SocketPlan::Listen { spec } => assert_eq!(spec, "0.0.0.0:5000"),
        other => panic!("passive must bind 0.0.0.0, got {other:?}"),
    }
    assert!(!c.active);
    assert_eq!(c.session_id, 10);
}

#[test]
fn build_hsms_passive_ipv6_binds_unspecified() {
    let c = hsms_settings(&cfg(ConnectionMode::Passive, "::1", 5000)).unwrap();
    match c.socket {
        SocketPlan::Listen { spec } => assert_eq!(spec, "[::]:5000"),
        other => panic!("passive IPv6 must bind [::], got {other:?}"),
    }
}

#[test]
fn build_hsms_active_keeps_configured_ip() {
    let c = hsms_settings(&cfg(ConnectionMode::Active, "192.168.1.10", 5000)).unwrap();
    match c.socket {
        SocketPlan::Connect { host, port } => {
            assert_eq!(host, "192.168.1.10");
            assert_eq!(port, 5000);
        }
        other => panic!("active keeps its host, got {other:?}"),
    }
    assert!(c.active);
}

#[test]
fn hsms_settings_copy_the_configuration() {
    let mut c = cfg(ConnectionMode::Active, " peer ", 6000);
    c.role = Role::Host;
    c.linktest_enabled = true;
    c.rebind_if_passive = false;
    let h = hsms_settings(&c).unwrap();
    assert!(!h.is_equip);
    assert_eq!(h.linktest_seconds.as_deref(), Some("30"));
    assert!(!h.rebind_if_passive);
    assert_eq!(h.t3, "45");
    assert!(matches!(h.socket, SocketPlan::Connect { ref host, port: 6000 } if host == "peer"));
    let mut blank = cfg(ConnectionMode::Active, "   ", 6000);
    blank.linktest_enabled = false;
    let h = hsms_settings(&blank).unwrap();
    assert!(matches!(h.socket, SocketPlan::EmptyHost));
    assert!(h.linktest_seconds.is_none());
}

#[test]
fn hsms_settings_reject_bad_session_ids() {
    let mut c = cfg(ConnectionMode::Passive, "127.0.0.1", 5000);
    c.session_id = 0x8000;
    assert_eq!(hsms_settings(&c).unwrap_err(), "invalid session id: 32768");
    c.session_id = -1;
    assert_eq!(hsms_settings(&c).unwrap_err(), "invalid session id: -1");
    c.session_id = 0x7FFF;
    assert!(hsms_settings(&c).is_ok());
}

#[test]
fn open_notes() {
    let active = cfg(ConnectionMode::Active, "127.0.0.1", 5000);
    assert_eq!(
        open_note(&active, "127.0.0.1:5000", true, Some("10.0.0.2")),
        "open Active connect 127.0.0.1:5000 sessionId=10 equip=true (loopback: remote hosts unreachable; set peer LAN IP)"
    );
    let passive = cfg(ConnectionMode::Passive, "0.0.0.0", 5000);
    assert_eq!(
        open_note(&passive, "0.0.0.0:5000", false, Some("10.0.0.2")),
        "open Passive listen 0.0.0.0:5000 sessionId=10 equip=true; peer Active should connect 10.0.0.2:5000"
    );
    assert_eq!(
        open_note(&passive, "0.0.0.0:5000", false, None),
        "open Passive listen 0.0.0.0:5000 sessionId=10 equip=true"
    );
}

#[test]
fn link_watch_reports_changes_once() {
    let mut w = LinkWatch::new();
    let n = w.observe(None, "NotSelected".to_string());
    assert!(n.note.is_none());
    assert_eq!(n.state.as_deref(), Some("NotSelected"));
    let n = w.observe(Some("refused".to_string()), "NotSelected".to_string());
    assert_eq!(n.note.as_deref(), Some("open failed: refused"));
    assert!(n.state.is_none());
    let n = w.observe(Some("refused".to_string()), "Selected".to_string());
    assert!(n.note.is_none());
    assert_eq!(n.state.as_deref(), Some("Selected"));
}
