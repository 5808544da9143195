//! Quick-start session configurations for common lab setups.

use vstd::prelude::*;
use crate::config::{SessionConfig, SessionConfigV, Role, ConnectionMode, default_config};

verus! {

/// A named configuration to start a session from.
#[derive(Debug)]
pub struct SessionTemplate {
    pub id: String,
    pub name: String,
    pub description: String,
    pub config: SessionConfig,
}

/// The default configuration on 127.0.0.1 with the given name, role,
/// mode, port, session id and rebind choice, linktest off.
pub open spec fn lab_config(name: Seq<char>, role: Role, mode: ConnectionMode, port: u16, session_id: i32, rebind: bool) -> SessionConfigV {
    let d = default_config();
    SessionConfigV {
        name,
        role,
        mode,
        ip: "127.0.0.1"@,
        port,
        session_id,
        linktest_enabled: false,
        rebind_if_passive: rebind,
        ..d
    }
}

fn lab(name: &str, role: Role, mode: ConnectionMode, port: u16, session_id: i32, rebind: bool) -> (r: SessionConfig)
    ensures
        r@ == lab_config(name@, role, mode, port, session_id, rebind),
{
    let mut c = SessionConfig::default();
    c.name = name.to_string();
    c.role = role;
    c.mode = mode;
    c.ip = "127.0.0.1".to_string();
    c.port = port;
    c.session_id = session_id;
    c.linktest_enabled = false;
    c.rebind_if_passive = rebind;
    c
}

fn template(id: &str, name: &str, description: &str, config: SessionConfig) -> (r: SessionTemplate)
    ensures
        r.id@ == id@,
        r.name@ == name@,
        r.description@ == description@,
        r.config@ == config@,
{
    SessionTemplate {
        id: id.to_string(),
        name: name.to_string(),
        description: description.to_string(),
        config,
    }
}

/// The built-in templates: equipment passive and host active on port 5000
/// (session id 10), and a second pair on port 5001 (session id 11). Host
/// templates do not rebind.
pub fn builtin_templates() -> (r: Vec<SessionTemplate>)
    ensures
        r@.len() == 4,
        r@[0].id@ == "equip-passive-5000"@,
        r@[0].name@ == "Equip Passive :5000"@,
        r@[0].description@ == "Equipment role, Passive listen on 127.0.0.1:5000, sessionId=10"@,
        r@[0].config@ == lab_config("Equip"@, Role::Equipment, ConnectionMode::Passive, 5000, 10, true),
        r@[1].id@ == "host-active-5000"@,
        r@[1].name@ == "Host Active :5000"@,
        r@[1].description@ == "Host role, Active connect to 127.0.0.1:5000, sessionId=10"@,
        r@[1].config@ == lab_config("Host"@, Role::Host, ConnectionMode::Active, 5000, 10, false),
        r@[2].id@ == "equip-passive-5001"@,
        r@[2].name@ == "Equip Passive :5001"@,
        r@[2].description@ == "Second equipment on port 5001 (multi-session)"@,
        r@[2].config@ == lab_config("Equip-2"@, Role::Equipment, ConnectionMode::Passive, 5001, 11, true),
        r@[3].id@ == "host-active-5001"@,
        r@[3].name@ == "Host Active :5001"@,
        r@[3].description@ == "Host Active to port 5001"@,
        r@[3].config@ == lab_config("Host-2"@, Role::Host, ConnectionMode::Active, 5001, 11, false),
{
    let mut v: Vec<SessionTemplate> = Vec::new();
    v.push(
        template(
            "equip-passive-5000",
            "Equip Passive :5000",
            "Equipment role, Passive listen on 127.0.0.1:5000, sessionId=10",
            lab("Equip", Role::Equipment, ConnectionMode::Passive, 5000, 10, true),
        ),
    );
    v.push(
        template(
            "host-active-5000",
            "Host Active :5000",
            "Host role, Active connect to 127.0.0.1:5000, sessionId=10",
            lab("Host", Role::Host, ConnectionMode::Active, 5000, 10, false),
        ),
    );
    v.push(
        template(
            "equip-passive-5001",
            "Equip Passive :5001",
            "Second equipment on port 5001 (multi-session)",
            lab("Equip-2", Role::Equipment, ConnectionMode::Passive, 5001, 11, true),
        ),
    );
    v.push(
        template(
            "host-active-5001",
            "Host Active :5001",
            "Host Active to port 5001",
            lab("Host-2", Role::Host, ConnectionMode::Active, 5001, 11, false),
        ),
    );
    v
}

/// An equipment (passive, rebinding) and a host (active, not rebinding)
/// on the same port, session id 10.
pub fn loopback_pair_templates(port: u16) -> (r: Vec<SessionConfig>)
    ensures
        r@.len() == 2,
        r@[0]@ == lab_config("Equip"@, Role::Equipment, ConnectionMode::Passive, port, 10, true),
        r@[1]@ == lab_config("Host"@, Role::Host, ConnectionMode::Active, port, 10, false),
{
    let mut v: Vec<SessionConfig> = Vec::new();
    v.push(lab("Equip", Role::Equipment, ConnectionMode::Passive, port, 10, true));
    v.push(lab("Host", Role::Host, ConnectionMode::Active, port, 10, false));
    v
}

} // verus!
