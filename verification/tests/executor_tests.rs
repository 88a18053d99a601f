use intent_core::executor::{
    plan_dispatch, settle_plan, simulate_plan, zero_timeout_outcome, DispatchEvent, ExecOptions,
};
use intent_core::model::ParsedIntent;
use intent_core::params::ParamValue;
use intent_core::plan::build_plan;

fn mk_intent(id: &str, action: &str) -> ParsedIntent {
    ParsedIntent {
        id: id.into(),
        action_name: action.into(),
        target_app_id: Some("test".into()),
        params: ParamValue::Obj(vec![]),
        confidence: 100,
        source_start: 0,
        source_end: 0,
        explicit: true,
    }
}

#[test]
fn default_options() {
    let opts = ExecOptions::default();
    assert_eq!(opts.timeout_ms, 5000);
    assert!(!opts.simulate);
}

#[test]
fn simulate_mode_all_simulated() {
    let plan = build_plan(&vec![mk_intent("i1", "act"), mk_intent("i2", "fail")], 1, "input", 0);
    let outcome = simulate_plan(&plan, 42);
    assert_eq!(outcome.results.len(), 2);
    assert!(outcome.results.iter().all(|r| r.status == "simulated"));
    assert!(outcome.results.iter().all(|r| r.duration_ms == Some(0)));
    assert_eq!(
        outcome.results[0].predicted_effects,
        Some(vec!["test:act".to_string()])
    );
    assert_eq!(outcome.overall_status, "success");
}

#[test]
fn empty_plan() {
    let plan = build_plan(&vec![], 2, "input", 0);
    let outcome = simulate_plan(&plan, 0);
    assert!(outcome.results.is_empty());
    assert_eq!(outcome.overall_status, "success");
}

#[test]
fn zero_timeout_all_timeout() {
    let plan = build_plan(&vec![mk_intent("i1", "act"), mk_intent("i2", "hang")], 1, "input", 0);
    let outcome = zero_timeout_outcome(&plan, 10);
    assert_eq!(outcome.results.len(), 2);
    assert!(outcome.results.iter().all(|r| r.status == "timeout"));
    assert!(outcome.results.iter().all(|r| r.duration_ms.is_none()));
    assert!(outcome.results.iter().all(|r| r.finished_at.is_none()));
    assert_eq!(outcome.overall_status, "failed");
}

#[test]
fn zero_timeout_empty_plan_succeeds() {
    let plan = build_plan(&vec![], 2, "input", 0);
    let outcome = zero_timeout_outcome(&plan, 10);
    assert!(outcome.results.is_empty());
    assert_eq!(outcome.overall_status, "success");
}

#[test]
fn mix_fast_and_hang() {
    let plan = build_plan(&vec![mk_intent("i1", "act"), mk_intent("i2", "hang")], 1, "input", 0);
    let order = plan_dispatch(&plan);
    assert_eq!(order.len(), 2);
    let events = vec![
        DispatchEvent::Succeeded { started_at: 100, finished_at: 110 },
        DispatchEvent::TimedOut { started_at: 100 },
    ];
    let outcome = settle_plan(&plan, &events);
    assert!(outcome.results.iter().any(|r| r.status == "success"));
    assert!(outcome.results.iter().any(|r| r.status == "timeout"));
    assert_eq!(outcome.overall_status, "partial");
}

#[test]
fn timeout_single_action() {
    let plan = build_plan(&vec![mk_intent("i1", "hang")], 1, "input", 0);
    let events = vec![DispatchEvent::TimedOut { started_at: 100 }];
    let outcome = settle_plan(&plan, &events);
    assert_eq!(outcome.results[0].status, "timeout");
    assert_eq!(outcome.results[0].reason.as_deref(), Some("timeout_ms exceeded"));
    assert_eq!(outcome.results[0].retry_hint.as_deref(), Some("increase-timeout"));
    assert_eq!(outcome.overall_status, "failed");
}

#[test]
fn failure_keeps_reason_and_duration() {
    let plan = build_plan(&vec![mk_intent("i1", "fail")], 1, "input", 0);
    let events = vec![DispatchEvent::Failed {
        reason: "fail-simulated".to_string(),
        started_at: 100,
        finished_at: 130,
    }];
    let outcome = settle_plan(&plan, &events);
    assert_eq!(outcome.results[0].status, "failed");
    assert_eq!(outcome.results[0].reason.as_deref(), Some("fail-simulated"));
    assert_eq!(outcome.results[0].retry_hint.as_deref(), Some("retry-later"));
    assert_eq!(outcome.results[0].duration_ms, Some(30));
    assert_eq!(outcome.results[0].finished_at, Some(130));
    assert_eq!(outcome.overall_status, "failed");
}

#[test]
fn results_keep_dispatch_order() {
    let intents = vec![
        mk_intent("a", "one"),
        mk_intent("b", "two"),
        mk_intent("c", "three"),
    ];
    let plan = build_plan(&intents, 2, "input", 0);
    let order = plan_dispatch(&plan);
    let events: Vec<DispatchEvent> = order
        .iter()
        .map(|_| DispatchEvent::Succeeded { started_at: 1, finished_at: 2 })
        .collect();
    let outcome = settle_plan(&plan, &events);
    assert_eq!(outcome.results.len(), order.len());
    for (r, i) in outcome.results.iter().zip(order.iter()) {
        assert_eq!(r.intent_id, i.id);
    }
    assert_eq!(outcome.overall_status, "success");
}

#[test]
fn dry_run_parity_structure() {
    let plan = build_plan(&vec![mk_intent("i1", "act"), mk_intent("i2", "act")], 1, "input", 0);
    let simulated = simulate_plan(&plan, 5);
    let order = plan_dispatch(&plan);
    let events: Vec<DispatchEvent> = order
        .iter()
        .map(|_| DispatchEvent::Succeeded { started_at: 1, finished_at: 2 })
        .collect();
    let executed = settle_plan(&plan, &events);
    assert_eq!(simulated.results.len(), executed.results.len());
    for (s, e) in simulated.results.iter().zip(executed.results.iter()) {
        assert_eq!(s.intent_id, e.intent_id);
        assert_eq!(s.status, "simulated");
        assert!(e.status == "success" || e.status == "failed" || e.status == "timeout");
        assert!(s.predicted_effects.is_some());
    }
    assert_eq!(simulated.overall_status, "success");
}
