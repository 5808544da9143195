//! Per-session connection configuration.

use vstd::prelude::*;

verus! {

/// Which side of the SECS link a session plays.
#[derive(Clone, Copy, Debug, PartialEq, Eq, Structural)]
pub enum Role {
    Host,
    Equipment,
}

/// Whether a session connects out or listens.
#[derive(Clone, Copy, Debug, PartialEq, Eq, Structural)]
pub enum ConnectionMode {
    Active,
    Passive,
}

/// Clock format used in S2F18 replies.
#[derive(Clone, Copy, Debug, PartialEq, Eq, Structural)]
pub enum ClockType {
    A12,
    A16,
}


/// Connection settings of one session. Timeouts are seconds, kept as the
/// decimal text of the number (the timer arithmetic belongs to the link).
#[derive(Debug)]
pub struct SessionConfig {
    pub name: String,
    pub role: Role,
    pub mode: ConnectionMode,
    pub ip: String,
    pub port: u16,
    pub session_id: i32,
    pub t3: String,
    pub t5: String,
    pub t6: String,
    pub t7: String,
    pub t8: String,
    pub linktest_enabled: bool,
    pub linktest_seconds: String,
    pub rebind_if_passive: bool,
    pub mdln: String,
    pub softrev: String,
    pub clock_type: ClockType,
}

/// Model of a [`SessionConfig`].
pub struct SessionConfigV {
    pub name: Seq<char>,
    pub role: Role,
    pub mode: ConnectionMode,
    pub ip: Seq<char>,
    pub port: u16,
    pub session_id: i32,
    pub t3: Seq<char>,
    pub t5: Seq<char>,
    pub t6: Seq<char>,
    pub t7: Seq<char>,
    pub t8: Seq<char>,
    pub linktest_enabled: bool,
    pub linktest_seconds: Seq<char>,
    pub rebind_if_passive: bool,
    pub mdln: Seq<char>,
    pub softrev: Seq<char>,
    pub clock_type: ClockType,
}

impl View for SessionConfig {
    type V = SessionConfigV;

    open spec fn view(&self) -> SessionConfigV {
        SessionConfigV {
            name: self.name@,
            role: self.role,
            mode: self.mode,
            ip: self.ip@,
            port: self.port,
            session_id: self.session_id,
            t3: self.t3@,
            t5: self.t5@,
            t6: self.t6@,
            t7: self.t7@,
            t8: self.t8@,
            linktest_enabled: self.linktest_enabled,
            linktest_seconds: self.linktest_seconds@,
            rebind_if_passive: self.rebind_if_passive,
            mdln: self.mdln@,
            softrev: self.softrev@,
            clock_type: self.clock_type,
        }
    }
}

impl Clone for SessionConfig {
    fn clone(&self) -> (r: Self)
        ensures
            r@ == self@,
    {
        SessionConfig {
            name: self.name.clone(),
            role: self.role,
            mode: self.mode,
            ip: self.ip.clone(),
            port: self.port,
            session_id: self.session_id,
            t3: self.t3.clone(),
            t5: self.t5.clone(),
            t6: self.t6.clone(),
            t7: self.t7.clone(),
            t8: self.t8.clone(),
            linktest_enabled: self.linktest_enabled,
            linktest_seconds: self.linktest_seconds.clone(),
            rebind_if_passive: self.rebind_if_passive,
            mdln: self.mdln.clone(),
            softrev: self.softrev.clone(),
            clock_type: self.clock_type,
        }
    }
}

/// The default configuration: an equipment session listening on
/// 127.0.0.1:5000, session id 0, T3 45 s, T5 10 s, T6 5 s, T7 10 s,
/// T8 5 s, no linktest (30 s when enabled), rebinding when passive,
/// model `SECS-SIM` revision `0.1.0`, 16-character clock.
pub open spec fn default_config() -> SessionConfigV {
    SessionConfigV {
        name: "Session"@,
        role: Role::Equipment,
        mode: ConnectionMode::Passive,
        ip: "127.0.0.1"@,
        port: 5000,
        session_id: 0,
        t3: "45"@,
        t5: "10"@,
        t6: "5"@,
        t7: "10"@,
        t8: "5"@,
        linktest_enabled: false,
        linktest_seconds: "30"@,
        rebind_if_passive: true,
        mdln: "SECS-SIM"@,
        softrev: "0.1.0"@,
        clock_type: ClockType::A16,
    }
}

impl Default for SessionConfig {
    fn default() -> (r: SessionConfig)
        ensures
            r@ == default_config(),
    {
        SessionConfig {
            name: "Session".to_string(),
            role: Role::Equipment,
            mode: ConnectionMode::Passive,
            ip: "127.0.0.1".to_string(),
            port: 5000,
            session_id: 0,
            t3: "45".to_string(),
            t5: "10".to_string(),
            t6: "5".to_string(),
            t7: "10".to_string(),
            t8: "5".to_string(),
            linktest_enabled: false,
            linktest_seconds: "30".to_string(),
            rebind_if_passive: true,
            mdln: "SECS-SIM".to_string(),
            softrev: "0.1.0".to_string(),
            clock_type: ClockType::A16,
        }
    }
}

} // verus!
