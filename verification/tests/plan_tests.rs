use intent_core::conflict::detect_conflicts;
use intent_core::model::ParsedIntent;
use intent_core::params::ParamValue;
use intent_core::plan::{build_plan, build_plan_with_cache, SignatureSet};
use intent_core::signature::normalize_signature;

fn mk(app: &str, action: &str, id: &str) -> ParsedIntent {
    ParsedIntent {
        id: id.into(),
        action_name: action.into(),
        target_app_id: Some(app.into()),
        params: ParamValue::Obj(vec![]),
        confidence: 100,
        source_start: 0,
        source_end: 0,
        explicit: true,
    }
}

fn mk_params(app: &str, action: &str, id: &str, params: ParamValue) -> ParsedIntent {
    ParsedIntent {
        id: id.into(),
        action_name: action.into(),
        target_app_id: Some(app.into()),
        params,
        confidence: 100,
        source_start: 0,
        source_end: 0,
        explicit: true,
    }
}

#[test]
fn dedup_removes_duplicate() {
    let a1 = mk("hosts", "switch", "a1");
    let a2 = mk("hosts", "switch", "a2");
    let plan = build_plan(&vec![a1, a2], 2, "input", 0);
    assert_eq!(plan.intents.len(), 2);
    assert_eq!(plan.deduplicated.len(), 1);
}

#[test]
fn batching_respects_max_concurrency() {
    let mut intents = Vec::new();
    for i in 0..6 {
        intents.push(mk("app", "act", &format!("i{i}")));
    }
    let plan = build_plan(&intents, 2, "input", 0);
    assert!(plan.batches.iter().all(|b| b.intents.len() <= 2));
    let total: usize = plan.batches.iter().map(|b| b.intents.len()).sum();
    assert_eq!(total, 6);
    assert!(plan.strategy == "parallel-limited" || plan.strategy == "sequential");
}

#[test]
fn conflicts_become_sequential_batches() {
    let a = mk("hosts", "switch", "x1");
    let b = mk("hosts", "switch", "x2");
    let c = mk("hosts", "list", "x3");
    let plan = build_plan(&vec![a, b, c], 2, "input", 0);
    assert_eq!(plan.conflicts.len(), 1);
    assert!(plan.batches.iter().filter(|b| b.intents.len() == 1).count() >= 2);
}

#[test]
fn conflict_detection_integration() {
    let i1 = mk("hosts", "switch", "i1");
    let i2 = mk("hosts", "switch", "i2");
    let i3 = mk("hosts", "list", "i3");
    let intents = vec![i1.clone(), i2.clone(), i3.clone()];

    let plan = build_plan(&intents, 3, "hosts:switch(dev) hosts:switch(prod) hosts:list()", 0);

    assert_eq!(plan.conflicts.len(), 1);
    let conflict = &plan.conflicts[0];
    assert_eq!(conflict.intents.len(), 2);
    assert!(conflict.intents.contains(&i1.id) && conflict.intents.contains(&i2.id));
    assert_eq!(conflict.resolution, "force-order");

    assert!(plan.batches.len() >= 2);
    assert_eq!(plan.batches[0].intents.len(), 1);
    assert_eq!(plan.batches[1].intents.len(), 1);
    let first_id = &plan.batches[0].intents[0].id;
    let second_id = &plan.batches[1].intents[0].id;
    assert_ne!(first_id, second_id);
    assert!(first_id == &i1.id || first_id == &i2.id);
    assert!(second_id == &i1.id || second_id == &i2.id);

    assert_eq!(plan.strategy, "sequential");

    let later_contains_i3 = plan
        .batches
        .iter()
        .skip(2)
        .any(|b| b.intents.iter().any(|i| i.id == i3.id));
    assert!(later_contains_i3, "non-conflict intent should appear after conflict batches");
}

#[test]
fn concurrency_batch_limit() {
    let intents: Vec<ParsedIntent> = (0..6).map(|i| mk("app", "op", &format!("i{i}"))).collect();
    let plan = build_plan(&intents, 2, "input", 0);
    assert!(plan.batches.iter().all(|b| b.intents.len() <= 2));
    let total: usize = plan.batches.iter().map(|b| b.intents.len()).sum();
    assert_eq!(total, 6);
    assert!(plan.strategy == "parallel-limited" || plan.strategy == "sequential");
}

#[test]
fn history_cache_reuse_signature() {
    let params = ParamValue::Obj(vec![("group".to_string(), ParamValue::Str("dev".to_string()))]);
    let intents1 = vec![
        mk_params("hosts", "switch", "i1", params.clone()),
        mk_params("hosts", "switch", "i2", params.clone()),
    ];
    let intents2 = vec![
        mk_params("hosts", "switch", "i3", params.clone()),
        mk_params("hosts", "switch", "i4", params.clone()),
    ];
    let mut cache = SignatureSet::new();

    let plan1 = build_plan_with_cache(&intents1, 2, "hosts:switch(dev)", &mut cache, 0);
    assert_eq!(plan1.cache_hit, Some(false));
    assert!(plan1.signature.is_some());
    let sig = plan1.signature.clone().unwrap();

    let plan2 = build_plan_with_cache(&intents2, 2, "hosts:switch(dev)", &mut cache, 0);
    assert_eq!(plan2.cache_hit, Some(true));
    assert_eq!(plan2.signature.as_ref().unwrap(), &sig);
    assert_eq!(plan1.deduplicated.len(), 1);
    assert_eq!(plan2.deduplicated.len(), 1);
}

#[test]
fn detects_conflict_same_app_action() {
    let a = mk("hosts", "switch", "i1");
    let b = mk("hosts", "switch", "i2");
    let conflicts = detect_conflicts(&vec![a.clone(), b.clone()]);
    assert_eq!(conflicts.len(), 1);
    let c = &conflicts[0];
    assert_eq!(c.intents.len(), 2);
    assert_eq!(c.resolution, "force-order");
    assert!(c.intents.contains(&a.id) && c.intents.contains(&b.id));
}

#[test]
fn no_conflict_different_action() {
    let a = mk("hosts", "switch", "i1");
    let b = mk("hosts", "list", "i2");
    let conflicts = detect_conflicts(&vec![a, b]);
    assert!(conflicts.is_empty());
}

#[test]
fn conflict_key_uses_app_and_action() {
    let a = mk("hosts", "switch", "i1");
    let b = mk("hosts", "switch", "i2");
    let conflicts = detect_conflicts(&vec![a, b]);
    assert_eq!(conflicts.len(), 1);
    assert_eq!(conflicts[0].conflict_key, "hosts::switch");
    assert_eq!(conflicts[0].reason, "same-app-action-mutual-exclusion");
}

#[test]
fn order_invariance() {
    let a = mk_params(
        "app",
        "switch",
        "i1",
        ParamValue::Obj(vec![
            ("group".to_string(), ParamValue::Str("dev".to_string())),
            ("mode".to_string(), ParamValue::Str("fast".to_string())),
        ]),
    );
    let b = mk_params(
        "app",
        "open",
        "i2",
        ParamValue::Obj(vec![("view".to_string(), ParamValue::Str("history".to_string()))]),
    );
    let sig1 = normalize_signature(&vec![a.clone(), b.clone()]);
    let sig2 = normalize_signature(&vec![b, a]);
    assert_eq!(sig1, sig2);
}

#[test]
fn param_object_order_invariance() {
    let a1 = mk_params(
        "app",
        "switch",
        "i1",
        ParamValue::Obj(vec![
            ("a".to_string(), ParamValue::Int(1)),
            ("b".to_string(), ParamValue::Int(2)),
        ]),
    );
    let a2 = mk_params(
        "app",
        "switch",
        "i2",
        ParamValue::Obj(vec![
            ("b".to_string(), ParamValue::Int(2)),
            ("a".to_string(), ParamValue::Int(1)),
        ]),
    );
    let s1 = normalize_signature(&vec![a1]);
    let s2 = normalize_signature(&vec![a2]);
    assert_eq!(s1, s2);
}

#[test]
fn signature_ignores_ids_and_confidence() {
    let mut a = mk("app", "act", "i1");
    let mut b = mk("app", "act", "i2");
    a.confidence = 100;
    b.confidence = 75;
    let s1 = normalize_signature(&vec![a]);
    let s2 = normalize_signature(&vec![b]);
    assert_eq!(s1, s2);
    assert_eq!(s1.len(), 64);
}

#[test]
fn signature_distinguishes_content() {
    let a = mk("app", "act", "i1");
    let b = mk("app", "other", "i2");
    let s1 = normalize_signature(&vec![a]);
    let s2 = normalize_signature(&vec![b]);
    assert_ne!(s1, s2);
}

#[test]
fn conflict_batches_come_first_and_cover_all() {
    let a = mk("hosts", "switch", "x1");
    let b = mk("app", "one", "x2");
    let c = mk("hosts", "switch", "x3");
    let d = mk("app", "two", "x4");
    let plan = build_plan(&vec![a, b, c, d], 2, "input", 7);
    assert_eq!(plan.generated_at, 7);
    // The two conflicting intents form the first two single-intent
    // batches; the two free intents follow windowed together.
    assert_eq!(plan.batches.len(), 3);
    assert_eq!(plan.batches[0].intents.len(), 1);
    assert_eq!(plan.batches[0].intents[0].id, "x1");
    assert_eq!(plan.batches[1].intents.len(), 1);
    assert_eq!(plan.batches[1].intents[0].id, "x3");
    assert_eq!(plan.batches[2].intents.len(), 2);
    assert_eq!(plan.batches[2].intents[0].id, "x2");
    assert_eq!(plan.batches[2].intents[1].id, "x4");
    assert_eq!(plan.strategy, "parallel-limited");
    let total: usize = plan.batches.iter().map(|b| b.intents.len()).sum();
    assert_eq!(total, plan.intents.len());
}

#[test]
fn zero_concurrency_means_single_batches() {
    let intents: Vec<ParsedIntent> = (0..3).map(|i| mk("app", "op", &format!("i{i}"))).collect();
    let plan = build_plan(&intents, 0, "input", 0);
    assert_eq!(plan.batches.len(), 3);
    assert!(plan.batches.iter().all(|b| b.intents.len() == 1));
    assert_eq!(plan.strategy, "sequential");
}
