//! Saved application state and portable scenarios (the values; reading and
//! writing files is the caller's).

use vstd::prelude::*;
use crate::config::SessionConfig;
use crate::catalog::MessageCatalog;
use crate::log::DEFAULT_LOG_CAPACITY;

verus! {

/// Name of the state file in the application data directory.
pub const STATE_FILE: &'static str = "app-state.json";

/// Extension of scenario files.
pub const SCENARIO_EXT: &'static str = "secs-scenario.json";

/// Application preferences.
#[derive(Debug)]
pub struct AppSettings {
    pub theme: String,
    pub log_capacity: usize,
    /// Restore the last session list on startup.
    pub restore_sessions: bool,
}

impl Clone for AppSettings {
    fn clone(&self) -> (r: Self)
        ensures
            r.theme@ == self.theme@,
            r.log_capacity == self.log_capacity,
            r.restore_sessions == self.restore_sessions,
    {
        AppSettings {
            theme: self.theme.clone(),
            log_capacity: self.log_capacity,
            restore_sessions: self.restore_sessions,
        }
    }
}

impl Default for AppSettings {
    /// Dark theme, 5000 log entries, sessions restored.
    fn default() -> (r: Self)
        ensures
            r.theme@ == "dark"@,
            r.log_capacity == 5000,
            r.restore_sessions,
    {
        AppSettings { theme: "dark".to_string(), log_capacity: DEFAULT_LOG_CAPACITY, restore_sessions: true }
    }
}

/// One saved session: its id, configuration and catalog (no log, no link).
#[derive(Debug)]
pub struct SessionSnapshot {
    pub id: String,
    pub config: SessionConfig,
    pub catalog: MessageCatalog,
}

/// Everything the state file holds.
#[derive(Debug)]
pub struct AppPersistState {
    pub version: u32,
    pub settings: AppSettings,
    pub sessions: Vec<SessionSnapshot>,
}

impl Default for AppPersistState {
    fn default() -> (r: Self)
        ensures
            r.version == 1,
            r.settings.theme@ == "dark"@,
            r.settings.log_capacity == 5000,
            r.settings.restore_sessions,
            r.sessions@.len() == 0,
    {
        AppPersistState { version: 1, settings: AppSettings::default(), sessions: Vec::new() }
    }
}

/// A portable scenario: named saved sessions.
#[derive(Debug)]
pub struct ScenarioFile {
    pub version: u32,
    pub name: String,
    pub sessions: Vec<SessionSnapshot>,
}

impl Default for ScenarioFile {
    fn default() -> (r: Self)
        ensures
            r.version == 1,
            r.name@ == "scenario"@,
            r.sessions@.len() == 0,
    {
        ScenarioFile { version: 1, name: "scenario".to_string(), sessions: Vec::new() }
    }
}

} // verus!
