use intent_core::executor::{plan_dispatch, DispatchEvent};
use intent_core::facade::{
    dry_run, execute_plan_finish, execute_plan_prepare, list_history, parse_intent, CoreState,
    ExecutePlanRequest, IntentParseRequest, ListHistoryRequest, PlanExecuteRequest,
};
use intent_core::history::InMemoryHistoryStore;

fn fresh_state() -> CoreState<InMemoryHistoryStore> {
    CoreState::new(InMemoryHistoryStore::new(30))
}

#[test]
fn blank_input_is_invalid() {
    let mut state = fresh_state();
    let req = IntentParseRequest { input: "   ".to_string(), explain: false };
    let r = parse_intent(&mut state, &req, 4, 1000);
    let err = r.unwrap_err();
    assert_eq!(err.code, "INVALID_INPUT");
}

#[test]
fn explicit_single_intent_success() {
    let mut state = fresh_state();
    let req = IntentParseRequest { input: "hosts:switch(dev)".to_string(), explain: false };
    let resp = parse_intent(&mut state, &req, 4, 1000).unwrap();
    assert_eq!(resp.strategy, "sequential");
    assert_eq!(resp.batches, 1);
    assert_eq!(resp.conflicts, 0);
    assert!(!resp.cache_hit);
    assert_eq!(resp.signature.len(), 64);

    let exec_req = ExecutePlanRequest {
        input: None,
        plan_id: Some(resp.plan_id.clone()),
        timeout_ms: Some(2000),
    };
    let (plan, timeout) = execute_plan_prepare(&mut state, &exec_req, 4, 1100).unwrap();
    assert_eq!(timeout, 2000);
    let order = plan_dispatch(&plan);
    assert_eq!(order.len(), 1);
    let events = vec![DispatchEvent::Succeeded { started_at: 1100, finished_at: 1110 }];
    let exec = execute_plan_finish(&mut state, &plan, &events, 1200);
    assert_eq!(exec.overall_status, "success");
    assert_eq!(exec.actions.len(), 1);
    assert_eq!(exec.actions[0].status, "success");
}

#[test]
fn cache_hit_across_identical_inputs() {
    let mut state = fresh_state();
    let req = IntentParseRequest { input: "hosts:switch(dev)".to_string(), explain: false };
    let first = parse_intent(&mut state, &req, 4, 1000).unwrap();
    assert!(!first.cache_hit);
    let second = parse_intent(&mut state, &req, 4, 1001).unwrap();
    assert!(second.cache_hit);
    assert_eq!(first.signature, second.signature);
}

#[test]
fn dry_run_semantics() {
    let mut state = fresh_state();
    let req = PlanExecuteRequest {
        input: Some("hosts:switch(dev)".to_string()),
        plan_id: None,
        dry_run: true,
    };
    let resp = dry_run(&mut state, &req, 4, 1000).unwrap();
    assert_eq!(resp.overall_status, "success");
    assert_eq!(resp.actions.len(), 1);
    assert_eq!(resp.actions[0].status, "simulated");
    assert_eq!(
        resp.actions[0].predicted_effects,
        Some(vec!["hosts:switch".to_string()])
    );
    let page = list_history(&state, &ListHistoryRequest { limit: None, after: None });
    assert_eq!(page.items.len(), 1);
}

#[test]
fn dry_run_rejects_both_and_neither() {
    let mut state = fresh_state();
    let both = PlanExecuteRequest {
        input: Some("a:b(c)".to_string()),
        plan_id: Some("x".to_string()),
        dry_run: true,
    };
    assert_eq!(dry_run(&mut state, &both, 4, 0).unwrap_err().code, "INVALID_INPUT");
    let neither = PlanExecuteRequest { input: None, plan_id: None, dry_run: true };
    assert_eq!(dry_run(&mut state, &neither, 4, 0).unwrap_err().code, "INVALID_INPUT");
}

#[test]
fn unknown_plan_id_not_found() {
    let mut state = fresh_state();
    let req = PlanExecuteRequest {
        input: None,
        plan_id: Some("missing".to_string()),
        dry_run: true,
    };
    assert_eq!(dry_run(&mut state, &req, 4, 0).unwrap_err().code, "PLAN_NOT_FOUND");
}

#[test]
fn plan_expires_after_ttl() {
    let mut state = fresh_state();
    let req = IntentParseRequest { input: "hosts:switch(dev)".to_string(), explain: false };
    let resp = parse_intent(&mut state, &req, 4, 0).unwrap();
    let lookup = PlanExecuteRequest { input: None, plan_id: Some(resp.plan_id), dry_run: true };
    // Two minutes and one millisecond later the cached plan is gone.
    let r = dry_run(&mut state, &lookup, 4, 120001);
    assert_eq!(r.unwrap_err().code, "PLAN_NOT_FOUND");
}

#[test]
fn timeout_out_of_range_is_invalid() {
    let mut state = fresh_state();
    let low = ExecutePlanRequest {
        input: Some("hosts:switch(dev)".to_string()),
        plan_id: None,
        timeout_ms: Some(50),
    };
    assert_eq!(
        execute_plan_prepare(&mut state, &low, 4, 0).unwrap_err().code,
        "INVALID_INPUT"
    );
    let high = ExecutePlanRequest {
        input: Some("hosts:switch(dev)".to_string()),
        plan_id: None,
        timeout_ms: Some(30001),
    };
    assert_eq!(
        execute_plan_prepare(&mut state, &high, 4, 0).unwrap_err().code,
        "INVALID_INPUT"
    );
}

#[test]
fn timeout_defaults_to_two_seconds() {
    let mut state = fresh_state();
    let req = ExecutePlanRequest {
        input: Some("hosts:switch(dev)".to_string()),
        plan_id: None,
        timeout_ms: None,
    };
    let (_plan, timeout) = execute_plan_prepare(&mut state, &req, 4, 0).unwrap();
    assert_eq!(timeout, 2000);
}

#[test]
fn conflict_forces_sequential_batches() {
    let mut state = fresh_state();
    let req = IntentParseRequest {
        input: "hosts:switch(dev) hosts:switch(prod) hosts:list()".to_string(),
        explain: false,
    };
    let resp = parse_intent(&mut state, &req, 4, 0).unwrap();
    assert_eq!(resp.conflicts, 1);
    assert_eq!(resp.strategy, "sequential");
    assert_eq!(resp.batches, 3);
}

#[test]
fn mixed_success_and_timeout_is_partial() {
    let mut state = fresh_state();
    let req = ExecutePlanRequest {
        input: Some("apps:act(1) apps:hang(2)".to_string()),
        plan_id: None,
        timeout_ms: Some(100),
    };
    let (plan, _timeout) = execute_plan_prepare(&mut state, &req, 4, 0).unwrap();
    let order = plan_dispatch(&plan);
    assert_eq!(order.len(), 2);
    let events = vec![
        DispatchEvent::Succeeded { started_at: 0, finished_at: 10 },
        DispatchEvent::TimedOut { started_at: 0 },
    ];
    let resp = execute_plan_finish(&mut state, &plan, &events, 200);
    assert_eq!(resp.overall_status, "partial");
    assert!(resp.actions.iter().any(|a| a.status == "success"));
    assert!(resp.actions.iter().any(|a| a.status == "timeout"));
}

#[test]
fn history_pagination() {
    let mut state = fresh_state();
    for k in 0..5u64 {
        let req = PlanExecuteRequest {
            input: Some(format!("app{k}:run({k})")),
            plan_id: None,
            dry_run: true,
        };
        dry_run(&mut state, &req, 4, 1000 + k * 10).unwrap();
    }
    let first = list_history(&state, &ListHistoryRequest { limit: Some(2), after: None });
    assert_eq!(first.items.len(), 2);
    assert!(first.items[0].created_at > first.items[1].created_at);
    let cursor = first.next_after.expect("full page carries a cursor");
    assert_eq!(cursor, first.items[1].created_at);

    let second = list_history(
        &state,
        &ListHistoryRequest { limit: Some(2), after: Some(cursor) },
    );
    assert_eq!(second.items.len(), 2);
    for it in &second.items {
        assert!(first.items.iter().all(|f| f.created_at != it.created_at));
        assert!(it.created_at < cursor);
    }

    let cursor2 = second.next_after.expect("second page is full too");
    let third = list_history(
        &state,
        &ListHistoryRequest { limit: Some(2), after: Some(cursor2) },
    );
    assert_eq!(third.items.len(), 1);
    assert!(third.next_after.is_none());
}

#[test]
fn history_records_carry_plan_summary() {
    let mut state = fresh_state();
    let req = PlanExecuteRequest {
        input: Some("hosts:switch(dev)".to_string()),
        plan_id: None,
        dry_run: true,
    };
    dry_run(&mut state, &req, 4, 1000).unwrap();
    let page = list_history(&state, &ListHistoryRequest { limit: None, after: None });
    assert_eq!(page.items.len(), 1);
    let item = &page.items[0];
    assert_eq!(item.input, "hosts:switch(dev)");
    assert_eq!(item.overall_status, "success");
    assert_eq!(item.plan_size, 1);
    assert_eq!(item.intents, vec!["switch".to_string()]);
    assert!(!item.explain_used);
    assert_eq!(item.signature.len(), 64);
}

#[test]
fn explain_payload_matches_intents() {
    let mut state = fresh_state();
    let req = IntentParseRequest { input: "hosts:switch(dev)".to_string(), explain: true };
    let resp = parse_intent(&mut state, &req, 4, 0).unwrap();
    let explain = resp.explain.expect("explain was asked for");
    assert_eq!(explain.tokens, vec!["explicit:hosts:switch".to_string()]);
    assert_eq!(explain.matched_rules.len(), 1);
    assert_eq!(explain.matched_rules[0].rule_id, "explicit:hosts:switch");
    assert_eq!(explain.matched_rules[0].weight, 100);
    assert!(explain.matched_rules[0].intent_id.is_some());
}
