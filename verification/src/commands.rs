//! What the user-interface commands decide, over a session manager that the
//! caller has locked: templates, loopback pairs, defaults of optional
//! arguments, the restore choice on load, and what a send reports.

use vstd::prelude::*;
use crate::catalog::{CatalogV, MessageCatalog, PrefabMessage, sx_fy_text};
use crate::config::{ConnectionMode, Role, SessionConfigV};
use crate::numbers::i64_text;
use crate::persistence::{AppPersistState, ScenarioFile};
use crate::session::{
    SessionError, SessionManager, SessionSummary, fresh, index_of, named, put, summary_of,
};
use crate::sml_bridge::{ReplyInfo, SendSmlResult};
use crate::templates::{builtin_templates, lab_config, loopback_pair_templates};
use crate::text::{chars_eq, chars_of, push_all, push_str, string_of};

verus! {

/// The configuration of the built-in template with id `id`.
pub open spec fn template_config(id: Seq<char>) -> Option<SessionConfigV> {
    if id == "equip-passive-5000"@ {
        Some(lab_config("Equip"@, Role::Equipment, ConnectionMode::Passive, 5000, 10, true))
    } else if id == "host-active-5000"@ {
        Some(lab_config("Host"@, Role::Host, ConnectionMode::Active, 5000, 10, false))
    } else if id == "equip-passive-5001"@ {
        Some(lab_config("Equip-2"@, Role::Equipment, ConnectionMode::Passive, 5001, 11, true))
    } else if id == "host-active-5001"@ {
        Some(lab_config("Host-2"@, Role::Host, ConnectionMode::Active, 5001, 11, false))
    } else {
        None
    }
}

/// A new session made by `create` from `config`, as the `n`-th session.
pub open spec fn created(ss: Seq<crate::session::SessionV>, id: Seq<char>, config: SessionConfigV, cap: usize) -> Seq<crate::session::SessionV> {
    put(ss, fresh(id, named(config, (ss.len() + 1) as nat), CatalogV { source: Seq::empty(), messages: Seq::empty() }, cap))
}

proof fn lemma_template_ids()
    ensures
        "equip-passive-5000"@ != "host-active-5000"@,
        "equip-passive-5000"@ != "equip-passive-5001"@,
        "equip-passive-5000"@ != "host-active-5001"@,
        "host-active-5000"@ != "equip-passive-5001"@,
        "host-active-5000"@ != "host-active-5001"@,
        "equip-passive-5001"@ != "host-active-5001"@,
{
    reveal_strlit("equip-passive-5000");
    reveal_strlit("host-active-5000");
    reveal_strlit("equip-passive-5001");
    reveal_strlit("host-active-5001");
    assert("equip-passive-5000"@[0] != "host-active-5000"@[0]);
    assert("equip-passive-5000"@[17] != "equip-passive-5001"@[17]);
    assert("equip-passive-5000"@[0] != "host-active-5001"@[0]);
    assert("host-active-5000"@[0] != "equip-passive-5001"@[0]);
    assert("host-active-5000"@[15] != "host-active-5001"@[15]);
    assert("equip-passive-5001"@[0] != "host-active-5001"@[0]);
}

/// Creates a session from the built-in template `template_id`;
/// an unknown id is refused with
/// `unknown template: <id>` and nothing changes.
pub fn session_create_from_template(manager: &mut SessionManager, template_id: &str) -> (r: Result<SessionSummary, String>)
    requires
        old(manager).wf(),
        old(manager)@.sessions.len() < 0xffff_ffff_ffff_ffff,
    ensures
        final(manager).wf(),
        final(manager)@.theme == old(manager)@.theme,
        final(manager)@.log_capacity == old(manager)@.log_capacity,
        final(manager)@.restore_sessions == old(manager)@.restore_sessions,
        match template_config(template_id@) {
            None => (r matches Err(e) && e@ == "unknown template: "@ + template_id@) && final(manager)@.sessions
                == old(manager)@.sessions,
            Some(c) => r matches Ok(s) && {
                &&& final(manager)@.sessions == created(old(manager)@.sessions, s.id@, c, old(manager)@.log_capacity)
                &&& summary_of(s, final(manager)@.sessions[index_of(final(manager)@.sessions, s.id@)->0])
            },
        },
{
    let ts = builtin_templates();
    let want = chars_of(template_id);
    proof {
        lemma_template_ids();
    }
    let mut i: usize = 0;
    while i < ts.len()
        invariant
            i <= ts@.len(),
            ts@.len() == 4,
            want@ == template_id@,
            ts@[0].id@ == "equip-passive-5000"@,
            ts@[1].id@ == "host-active-5000"@,
            ts@[2].id@ == "equip-passive-5001"@,
            ts@[3].id@ == "host-active-5001"@,
            ts@[0].config@ == lab_config("Equip"@, Role::Equipment, ConnectionMode::Passive, 5000, 10, true),
            ts@[1].config@ == lab_config("Host"@, Role::Host, ConnectionMode::Active, 5000, 10, false),
            ts@[2].config@ == lab_config("Equip-2"@, Role::Equipment, ConnectionMode::Passive, 5001, 11, true),
            ts@[3].config@ == lab_config("Host-2"@, Role::Host, ConnectionMode::Active, 5001, 11, false),
            manager.wf(),
            manager@ == old(manager)@,
            old(manager)@.sessions.len() < 0xffff_ffff_ffff_ffff,
            forall|k: int| 0 <= k < i ==> (#[trigger] ts@[k]).id@ != template_id@,
        decreases ts.len() - i,
    {
        let have = chars_of(ts[i].id.as_str());
        if chars_eq(&have, &want) {
            let cfg = ts[i].config.clone();
            assert(template_config(template_id@) == Some(cfg@)) by {
                lemma_template_ids();
            }
            let s = manager.create(Some(cfg));
            return Ok(s);
        }
        i += 1;
    }
    let mut v = chars_of("unknown template: ");
    push_all(&mut v, &want);
    Err(string_of(&v))
}

proof fn lemma_put_len(ss: Seq<crate::session::SessionV>)
    ensures
        forall|s: crate::session::SessionV| #[trigger] put(ss, s).len() <= ss.len() + 1,
{
    assert forall|s: crate::session::SessionV| #[trigger] put(ss, s).len() <= ss.len() + 1 by {
        crate::flow_model::lemma_first_index(ss, crate::session::has_id(s.id));
    }
}

/// Creates an equipment and a host session for a loopback test on `port`
/// (5000 when none is given), in that order.
pub fn session_create_loopback_pair(manager: &mut SessionManager, port: Option<u16>) -> (r: Vec<SessionSummary>)
    requires
        old(manager).wf(),
        old(manager)@.sessions.len() + 1 < 0xffff_ffff_ffff_ffff,
    ensures
        final(manager).wf(),
        final(manager)@.theme == old(manager)@.theme,
        final(manager)@.log_capacity == old(manager)@.log_capacity,
        final(manager)@.restore_sessions == old(manager)@.restore_sessions,
        r@.len() == 2,
        ({
            let p: u16 = match port {
                Some(p) => p,
                None => 5000,
            };
            let cap = old(manager)@.log_capacity;
            let mid = created(old(manager)@.sessions, r@[0].id@, lab_config("Equip"@, Role::Equipment, ConnectionMode::Passive, p, 10, true), cap);
            final(manager)@.sessions == created(mid, r@[1].id@, lab_config("Host"@, Role::Host, ConnectionMode::Active, p, 10, false), cap)
        }),
{
    let p: u16 = match port {
        Some(p) => p,
        None => 5000,
    };
    let cfgs = loopback_pair_templates(p);
    let c0 = cfgs[0].clone();
    let c1 = cfgs[1].clone();
    let mut out: Vec<SessionSummary> = Vec::new();
    let a = manager.create(Some(c0));
    proof {
        lemma_put_len(old(manager)@.sessions);
    }
    let b = manager.create(Some(c1));
    out.push(a);
    out.push(b);
    out
}

/// Imports SMD text into session `id`'s catalog, under the source name
/// `import.smd` when none is given, and returns the new catalog.
pub fn session_import_smd(manager: &mut SessionManager, id: &str, xml: &str, source: Option<String>) -> (r: Result<MessageCatalog, SessionError>)
    requires
        old(manager).wf(),
    ensures
        final(manager).wf(),
        final(manager)@.theme == old(manager)@.theme,
        final(manager)@.log_capacity == old(manager)@.log_capacity,
        final(manager)@.restore_sessions == old(manager)@.restore_sessions,
        match index_of(old(manager)@.sessions, id@) {
            None => (r matches Err(SessionError::NotFound(x)) && x@ == id@) && final(manager)@.sessions == old(manager)@.sessions,
            Some(i) => match crate::smd::smd_document(xml@) {
                Err(f) => (r matches Err(SessionError::Smd(e)) && e@ == f) && final(manager)@.sessions == old(manager)@.sessions,
                Ok(shapes) => r matches Ok(c) && {
                    &&& c@.source == match source {
                        Some(s) => s@,
                        None => "import.smd"@,
                    }
                    &&& shapes == Seq::new(c@.messages.len(), |k: int| crate::smd::prefab_shape(c@.messages[k]))
                    &&& final(manager)@.sessions == old(manager)@.sessions.update(
                        i,
                        crate::session::SessionV { catalog: c@, ..old(manager)@.sessions[i] },
                    )
                },
            },
        },
{
    let src = match source {
        Some(s) => s,
        None => String::from_str("import.smd"),
    };
    match manager.import_smd(id, xml, src.as_str()) {
        Ok((_, c)) => Ok(c),
        Err(e) => Err(e),
    }
}

/// The scenario of the current sessions, named `secs-scenario` when no name
/// is given.
pub fn scenario_get(manager: &SessionManager, name: Option<String>) -> (r: ScenarioFile)
    requires
        manager.wf(),
    ensures
        r.version == 1,
        r.name@ == match name {
            Some(n) => n@,
            None => "secs-scenario"@,
        },
        r.sessions@.len() == manager@.sessions.len(),
        forall|j: int| 0 <= j < manager@.sessions.len() ==> #[trigger] crate::session::saved(r.sessions@, manager@.sessions[j]),
        forall|p: int| 0 <= p < r.sessions@.len() ==> #[trigger] crate::session::saved_of_some(r.sessions@[p], manager@.sessions),
{
    let n = match name {
        Some(n) => n,
        None => String::from_str("secs-scenario"),
    };
    manager.to_scenario(n)
}

/// Takes a loaded state into the manager: the whole state
/// when it asks for its sessions to be restored, else its settings only.
pub fn app_load_state(manager: &mut SessionManager, state: AppPersistState) -> (r: Result<(), SessionError>)
    requires
        old(manager).wf(),
    ensures
        final(manager).wf(),
        if !state.settings.restore_sessions {
            &&& r is Ok
            &&& final(manager)@.sessions == old(manager)@.sessions
            &&& final(manager)@.theme == state.settings.theme@
            &&& final(manager)@.log_capacity == state.settings.log_capacity
            &&& final(manager)@.restore_sessions == state.settings.restore_sessions
        } else if exists|k: int| 0 <= k < old(manager)@.sessions.len() && (#[trigger] old(manager)@.sessions[k]).open {
            r matches Err(SessionError::OpenOnRestore) && final(manager)@ == old(manager)@
        } else {
            &&& r is Ok
            &&& final(manager)@.theme == state.settings.theme@
            &&& final(manager)@.log_capacity == state.settings.log_capacity
            &&& final(manager)@.restore_sessions == state.settings.restore_sessions
            &&& final(manager)@.sessions == crate::session::restored(state.sessions@, state.settings.log_capacity)
        },
{
    if state.settings.restore_sessions {
        manager.restore_snapshot(state)
    } else {
        manager.set_settings(state.settings);
        Ok(())
    }
}

/// Takes the state read at startup into the manager (the setup step of
/// `run`): the saved sessions when the state asks for them to be restored
/// and holds some, else its settings only.
pub fn startup_load(manager: &mut SessionManager, state: AppPersistState) -> (r: Result<(), SessionError>)
    requires
        old(manager).wf(),
    ensures
        final(manager).wf(),
        if !(state.settings.restore_sessions && state.sessions@.len() > 0) {
            &&& r is Ok
            &&& final(manager)@.sessions == old(manager)@.sessions
            &&& final(manager)@.theme == state.settings.theme@
            &&& final(manager)@.log_capacity == state.settings.log_capacity
            &&& final(manager)@.restore_sessions == state.settings.restore_sessions
        } else if exists|k: int| 0 <= k < old(manager)@.sessions.len() && (#[trigger] old(manager)@.sessions[k]).open {
            r matches Err(SessionError::OpenOnRestore) && final(manager)@ == old(manager)@
        } else {
            &&& r is Ok
            &&& final(manager)@.theme == state.settings.theme@
            &&& final(manager)@.log_capacity == state.settings.log_capacity
            &&& final(manager)@.restore_sessions == state.settings.restore_sessions
            &&& final(manager)@.sessions == crate::session::restored(state.sessions@, state.settings.log_capacity)
        },
{
    if state.settings.restore_sessions && state.sessions.len() > 0 {
        manager.restore_snapshot(state)
    } else {
        manager.set_settings(state.settings);
        Ok(())
    }
}

/// What sending a catalog message reports before any reply:
/// its header, the summary
/// `S<stream>F<function>[ W] (<name>)`, and whether the reply will come later
/// (a waiting primary: wait bit and odd function).
pub fn message_send_result(message: &PrefabMessage, reply: Option<ReplyInfo>) -> (r: SendSmlResult)
    ensures
        r.stream == message.stream,
        r.function == message.function,
        r.wbit == message.wait,
        r.summary@ == sx_fy_text(message.stream as int, message.function as int) + (if message.wait {
            " W"@
        } else {
            Seq::<char>::empty()
        }) + " ("@ + message.message_name@ + ")"@,
        r.reply == reply,
        r.waiting == (message.wait && message.function >= 0 && message.function % 2 == 1),
{
    let mut v: Vec<char> = Vec::new();
    v.push('S');
    push_all(&mut v, &i64_text(message.stream as i64));
    v.push('F');
    push_all(&mut v, &i64_text(message.function as i64));
    if message.wait {
        push_str(&mut v, " W");
    }
    push_str(&mut v, " (");
    push_all(&mut v, &chars_of(message.message_name.as_str()));
    push_str(&mut v, ")");
    proof {
        reveal_strlit(" W");
        reveal_strlit(" (");
        reveal_strlit(")");
    }
    SendSmlResult {
        stream: message.stream,
        function: message.function,
        wbit: message.wait,
        summary: string_of(&v),
        reply,
        waiting: message.wait && message.function % 2 == 1,
    }
}

} // verus!
