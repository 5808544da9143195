use secs_sim::rules::{
    builtin_kind, candidates, plan_action, BuiltinKind, HsmsHeader, Rule, RuleAction, RuleEffect,
    RuleMatch, RuleOutcome, RulePlan, RuleRun, RuleSet,
};
use secs_sim::secs2::Secs2;
use secs_sim::sml_bridge::parse_secs2_body;

fn data_header(stream: u8, function: u8, wbit: bool) -> HsmsHeader {
    let mut h = [0u8; 10];
    h[0] = 0x00;
    h[1] = 0x0A;
    h[2] = stream | if wbit { 0x80 } else { 0 };
    h[3] = function;
    // DATA p=0 s=0
    h[4] = 0;
    h[5] = 0;
    h[6] = 0;
    h[7] = 0;
    h[8] = 0;
    h[9] = 1;
    HsmsHeader::from_bytes(&h)
}

fn rule(id: &str, m: RuleMatch, action: RuleAction, continue_match: bool) -> Rule {
    Rule { id: id.to_string(), enabled: true, match_spec: m, action, continue_match }
}

#[test]
fn match_specificity_and_wildcard() {
    let msg = data_header(2, 41, true);
    let exact = RuleMatch { stream: Some(2), function: Some(41), wbit: Some(true) };
    let wild = RuleMatch { stream: Some(2), function: None, wbit: None };
    assert!(exact.matches(&msg));
    assert!(wild.matches(&msg));
    assert!(exact.specificity() > wild.specificity());
}

#[test]
fn parse_body_item() {
    let b = parse_secs2_body(r#"<L <B 0x00> <A "OK"> >"#).unwrap();
    assert_eq!(b.size(), 2);
}

#[test]
fn header_bytes_decode() {
    let h = HsmsHeader::from_bytes(&[0x01, 0x02, 0x86, 0x0B, 0, 0, 0x00, 0x00, 0x01, 0x02]);
    assert_eq!(h.session_id, 0x0102);
    assert_eq!(h.stream, 6);
    assert!(h.wbit);
    assert_eq!(h.function, 11);
    assert_eq!(h.system_bytes, 0x0102);
    assert!(h.is_data_message());
    let select = HsmsHeader::from_bytes(&[0xFF, 0xFF, 0, 0, 0, 1, 0, 0, 0, 7]);
    assert!(!select.is_data_message());
    assert!(!RuleMatch { stream: None, function: None, wbit: None }.matches(&select));
}

#[test]
fn candidates_most_specific_first_then_list_order() {
    let set = RuleSet {
        version: 1,
        rules: vec![
            rule("any", RuleMatch { stream: None, function: None, wbit: None }, RuleAction::LogOnly, true),
            rule("s2", RuleMatch { stream: Some(2), function: None, wbit: None }, RuleAction::LogOnly, true),
            rule("other", RuleMatch { stream: Some(1), function: None, wbit: None }, RuleAction::LogOnly, true),
            rule("exact", RuleMatch { stream: Some(2), function: Some(41), wbit: Some(true) }, RuleAction::Drop, true),
            rule("s2b", RuleMatch { stream: Some(2), function: None, wbit: None }, RuleAction::LogOnly, true),
        ],
    };
    let mut disabled = rule("off", RuleMatch { stream: Some(2), function: Some(41), wbit: Some(true) }, RuleAction::Drop, true);
    disabled.enabled = false;
    let mut set2 = set;
    set2.rules.push(disabled);
    assert_eq!(candidates(&set2, &data_header(2, 41, true)), vec![3, 1, 4, 0]);
    assert_eq!(candidates(&set2, &data_header(9, 1, false)), vec![0]);
}

#[test]
fn rule_run_stops_unless_continue() {
    let h = data_header(1, 1, true);
    let drop_rule = rule("d", RuleMatch { stream: Some(1), function: Some(1), wbit: None }, RuleAction::Drop, false);
    let mut run = RuleRun::new();
    let plan = plan_action(&drop_rule.action, &h);
    let effect = plan.settled().unwrap();
    assert!(!run.apply(&drop_rule, &effect));
    match run.outcome() {
        RuleOutcome::Dropped { rule_id } => assert_eq!(rule_id, "d"),
        _ => panic!("drop rule must drop"),
    }
    let log_rule = rule("l", RuleMatch { stream: None, function: None, wbit: None }, RuleAction::LogOnly, true);
    let mut run = RuleRun::new();
    assert!(run.apply(&log_rule, &RuleEffect::Logged));
    match run.outcome() {
        RuleOutcome::Handled { rule_id, note } => {
            assert_eq!(rule_id, "l");
            assert_eq!(note, "log_only");
        }
        _ => panic!("log rule handles"),
    }
    assert!(matches!(RuleRun::new().outcome(), RuleOutcome::NoMatch));
}

#[test]
fn reply_plan_needs_wait_bit() {
    let action = RuleAction::SmlReply { body: "<A \"OK\">".to_string(), delay_ms: 5 };
    match plan_action(&action, &data_header(1, 1, false)) {
        RulePlan::SkipReply { delay_ms } => assert_eq!(delay_ms, 5),
        _ => panic!("no wait bit: skip"),
    }
    match plan_action(&action, &data_header(1, 255, true)) {
        RulePlan::SendReply { stream, function, body, .. } => {
            assert_eq!(stream, 1);
            assert_eq!(function, 256);
            assert!(matches!(body, Secs2::Ascii(ref s) if s == "OK"));
        }
        _ => panic!("reply expected"),
    }
    let bad = RuleAction::SmlReply { body: "<Q>".to_string(), delay_ms: 0 };
    match plan_action(&bad, &data_header(1, 1, true)) {
        RulePlan::BadReplyBody { error, .. } => assert_eq!(error, "rule body SML: invalid SML"),
        _ => panic!("unreadable body"),
    }
    let mut run = RuleRun::new();
    let r = rule("r", RuleMatch { stream: None, function: None, wbit: None }, action, false);
    run.apply(&r, &RuleEffect::ReplySkipped);
    match run.outcome() {
        RuleOutcome::Handled { rule_id, note } => {
            assert_eq!(rule_id, "r");
            assert_eq!(note, "sml_reply skipped (no W-bit)");
        }
        _ => panic!("a matched reply rule handles the primary"),
    }
    run.apply(&r, &RuleEffect::ReplySent { stream: 1, function: 2 });
    match run.outcome() {
        RuleOutcome::Handled { note, .. } => assert_eq!(note, "sml_reply S1F2"),
        _ => panic!("handled"),
    }
}

#[test]
fn primary_plan_and_builtins() {
    let action = RuleAction::SmlPrimary { sml: "S1F1 W.".to_string(), delay_ms: 0 };
    match plan_action(&action, &data_header(6, 11, true)) {
        RulePlan::SendPrimary { stream, function, wbit, .. } => {
            assert_eq!((stream, function, wbit), (1, 1, true));
        }
        _ => panic!("primary expected"),
    }
    assert_eq!(builtin_kind("S1F13"), Some(BuiltinKind::S1F14));
    assert_eq!(builtin_kind("s6f12"), Some(BuiltinKind::S6F12));
    assert_eq!(builtin_kind("s9f9"), None);
    let b = RuleAction::Builtin { handler: "S9F9".to_string(), params: None };
    let plan = plan_action(&b, &data_header(9, 9, true));
    match plan.settled() {
        Some(RuleEffect::BuiltinFailed { error, .. }) => assert_eq!(error, "unknown builtin handler: s9f9"),
        _ => panic!("unknown builtin"),
    }
    let mut run = RuleRun::new();
    let r = rule("b", RuleMatch { stream: None, function: None, wbit: None }, b, false);
    run.apply(&r, &RuleEffect::BuiltinRan { handler: "S1F13".to_string(), replied: false });
    match run.outcome() {
        RuleOutcome::Handled { note, .. } => assert_eq!(note, "builtin:S1F13 skipped"),
        _ => panic!("handled"),
    }
}

#[test]
fn default_rule_set_is_empty_version_one() {
    let d = RuleSet::default();
    assert_eq!(d.version, 1);
    assert!(d.rules.is_empty());
}

#[test]
fn matched_reply_rule_without_wait_bit_is_handled() {
    let set = RuleSet {
        version: 1,
        rules: vec![rule(
            "r",
            RuleMatch { stream: Some(6), function: Some(11), wbit: None },
            RuleAction::SmlReply { body: "<B 0x00>".to_string(), delay_ms: 0 },
            false,
        )],
    };
    let primary = data_header(6, 11, false);
    let mut run = RuleRun::new();
    for i in candidates(&set, &primary) {
        let r = &set.rules[i];
        let plan = plan_action(&r.action, &primary);
        let effect = plan.settled().expect("a skipped reply needs no link work");
        if !run.apply(r, &effect) {
            break;
        }
    }
    match run.outcome() {
        RuleOutcome::Handled { rule_id, note } => {
            assert_eq!(rule_id, "r");
            assert_eq!(note, "sml_reply skipped (no W-bit)");
        }
        _ => panic!("matched"),
    }
}
