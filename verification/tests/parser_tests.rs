use intent_core::params::ParamValue;
use intent_core::parser::{IntentParser, ParseOptions, RuleBasedParser};

#[test]
fn explicit_parsing() {
    let p = RuleBasedParser::new();
    let r = p.parse("hosts:switch(dev)", &ParseOptions::default());
    assert_eq!(r.intents.len(), 1);
    assert!(r.intents[0].explicit);
    assert_eq!(r.intents[0].action_name, "switch");
    assert_eq!(r.intents[0].target_app_id.as_deref(), Some("hosts"));
    assert!(r.explain.is_none());
}

#[test]
fn mixed_keywords_and_explicit() {
    let p = RuleBasedParser::new();
    let input = "\u{542f}\u{7528}\u{5f00}\u{53d1} hosts:switch(dev) \u{5e76}\u{67e5}\u{770b}\u{526a}\u{8d34}\u{677f}";
    let r = p.parse(input, &ParseOptions::default());
    assert!(r.intents.len() >= 2);
    assert!(r.intents.iter().any(|i| i.explicit));
    assert!(r.explain.is_none());
}

#[test]
fn explain_mode_enabled() {
    let p = RuleBasedParser::new();
    let input = "\u{67e5}\u{770b}\u{526a}\u{8d34}\u{677f} hosts:switch(dev)";
    let r = p.parse(input, &ParseOptions { enable_explain: true });
    assert!(r.explain.is_some());
    let e = r.explain.unwrap();
    assert!(!e.tokens.is_empty());
    assert!(!e.matched_rules.is_empty());
    assert!(e.matched_rules.iter().all(|mr| !mr.rule_id.is_empty()));
}

#[test]
fn explicit_intent_carries_arg_params() {
    let p = RuleBasedParser::new();
    let r = p.parse("hosts:switch(dev)", &ParseOptions::default());
    assert_eq!(r.intents.len(), 1);
    let expected = ParamValue::Obj(vec![("arg".to_string(), ParamValue::Str("dev".to_string()))]);
    assert_eq!(r.intents[0].params, expected);
    assert_eq!(r.intents[0].confidence, 100);
}

#[test]
fn empty_args_give_empty_object() {
    let p = RuleBasedParser::new();
    let r = p.parse("hosts:list()", &ParseOptions::default());
    assert_eq!(r.intents.len(), 1);
    assert_eq!(r.intents[0].params, ParamValue::Obj(vec![]));
    assert_eq!(r.intents[0].action_name, "list");
}

#[test]
fn keyword_skipped_when_app_covered() {
    let p = RuleBasedParser::new();
    // The explicit match already targets `hosts`, so no keyword intent is
    // added although the keyword occurs in the input.
    let r = p.parse("hosts:switch(dev) hosts", &ParseOptions::default());
    assert_eq!(r.intents.len(), 1);
    assert!(r.intents[0].explicit);
}

#[test]
fn keyword_emits_fallback_intent() {
    let p = RuleBasedParser::new();
    let r = p.parse("please switch my hosts now", &ParseOptions::default());
    assert_eq!(r.intents.len(), 1);
    assert!(!r.intents[0].explicit);
    assert_eq!(r.intents[0].action_name, "switch");
    assert_eq!(r.intents[0].target_app_id.as_deref(), Some("hosts"));
    assert_eq!(r.intents[0].confidence, 75);
}

#[test]
fn multiple_matches_scan_left_to_right() {
    let p = RuleBasedParser::new();
    let r = p.parse("a:b(1) then c:d(2)", &ParseOptions::default());
    assert_eq!(r.intents.len(), 2);
    assert_eq!(r.intents[0].target_app_id.as_deref(), Some("a"));
    assert_eq!(r.intents[1].target_app_id.as_deref(), Some("c"));
}

#[test]
fn ids_are_distinct_within_one_parse() {
    let p = RuleBasedParser::new();
    let r = p.parse("a:b(1) c:d(2) e:f(3)", &ParseOptions::default());
    assert_eq!(r.intents.len(), 3);
    for i in 0..r.intents.len() {
        for j in i + 1..r.intents.len() {
            assert_ne!(r.intents[i].id, r.intents[j].id);
        }
    }
}
