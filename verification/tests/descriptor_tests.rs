use intent_core::descriptor::{
    validate, validate_action, Action, ActionArg, AppDescriptor, ArgType, DescriptorError,
};
use intent_core::discovery::{check_discovered, RawAction};
use intent_core::launch::{
    build_deeplink_url, data_url_from_bytes, default_icon_candidates, fallback_display_name,
    mime_from_ext,
};
use intent_core::registry::{
    build_registry, descriptor_candidates, map_descriptor_error, AppRecord, IssueCode,
    LoadedDescriptor, Registry,
};

fn minimal(id: &str) -> AppDescriptor {
    AppDescriptor {
        id: id.to_string(),
        name: "N".to_string(),
        description: "D".to_string(),
        version: "1.0.0".to_string(),
        scheme: None,
        icon: None,
        actions: vec![],
    }
}

#[test]
fn validate_minimal_ok() {
    assert!(validate(&minimal("clipboard")).is_ok());
}

#[test]
fn reject_bad_id() {
    let err = validate(&minimal("Bad Id")).unwrap_err();
    match err {
        DescriptorError::InvalidField { field, .. } => assert_eq!(field, "id"),
        _ => panic!("wrong error"),
    }
}

#[test]
fn reject_unsupported_major() {
    let mut d = minimal("x");
    d.version = "2.0.0".to_string();
    let err = validate(&d).unwrap_err();
    assert!(matches!(err, DescriptorError::UnsupportedMajor(2)));
}

#[test]
fn reject_invalid_semver() {
    let mut d = minimal("x");
    d.version = "not-a-version".to_string();
    let err = validate(&d).unwrap_err();
    assert!(matches!(err, DescriptorError::InvalidField { .. }));
}

#[test]
fn duplicate_action() {
    let mut d = minimal("x");
    d.actions = vec![
        Action { name: "a".to_string(), title: None, args: vec![] },
        Action { name: "a".to_string(), title: None, args: vec![] },
    ];
    let err = validate(&d).unwrap_err();
    assert!(matches!(err, DescriptorError::DuplicateAction(_)));
}

#[test]
fn duplicate_arg() {
    let mut d = minimal("x");
    d.actions = vec![Action {
        name: "a".to_string(),
        title: None,
        args: vec![
            ActionArg { name: "p".to_string(), arg_type: ArgType::String, required: true },
            ActionArg { name: "p".to_string(), arg_type: ArgType::Number, required: false },
        ],
    }];
    let err = validate(&d).unwrap_err();
    assert!(matches!(err, DescriptorError::DuplicateArg { .. }));
}

#[test]
fn scheme_pattern_is_checked() {
    let mut d = minimal("x");
    d.scheme = Some("myapp".to_string());
    assert!(validate(&d).is_ok());
    d.scheme = Some("9bad".to_string());
    assert!(validate(&d).is_err());
}

#[test]
fn action_name_pattern_is_checked() {
    let good = Action { name: "run-it".to_string(), title: None, args: vec![] };
    assert!(validate_action(&good).is_ok());
    let bad = Action { name: "Run It".to_string(), title: None, args: vec![] };
    assert!(validate_action(&bad).is_err());
}

#[test]
fn registry_lookup_by_id() {
    let reg = Registry::from_map_for_test(vec![AppRecord {
        descriptor: minimal("clip"),
        origin_path: "/apps/clip".to_string(),
    }]);
    assert!(reg.get("clip").is_some());
    assert!(reg.get("other").is_none());
    assert!(reg.issues.is_empty());
}

#[test]
fn registry_first_id_wins() {
    let reg = build_registry(vec![
        LoadedDescriptor::Parsed { path: "/a".to_string(), descriptor: minimal("dup") },
        LoadedDescriptor::Parsed { path: "/b".to_string(), descriptor: minimal("dup") },
    ]);
    assert_eq!(reg.apps.len(), 1);
    assert_eq!(reg.apps[0].origin_path, "/a");
    assert!(reg.issues.iter().any(|i| matches!(i.code, IssueCode::DuplicateAppId)));
}

#[test]
fn registry_keeps_failures_as_issues() {
    let reg = build_registry(vec![LoadedDescriptor::Failed {
        path: "/broken".to_string(),
        code: IssueCode::ParseError,
        detail: "broken json".to_string(),
    }]);
    assert_eq!(reg.apps.len(), 0);
    assert_eq!(reg.issues.len(), 1);
    assert!(matches!(reg.issues[0].code, IssueCode::ParseError));
}

#[test]
fn descriptor_error_mapping() {
    assert!(matches!(
        map_descriptor_error(&DescriptorError::UnsupportedMajor(2)).0,
        IssueCode::UnsupportedDescriptorVersion
    ));
    assert!(matches!(
        map_descriptor_error(&DescriptorError::DuplicateAction("a".to_string())).0,
        IssueCode::DuplicateAction
    ));
}

#[test]
fn candidate_paths_in_lookup_order() {
    let c = descriptor_candidates("/apps/x");
    assert_eq!(c.len(), 4);
    assert_eq!(c[0], "/apps/x/tlfsuite.json");
    assert_eq!(c[1], "/apps/x/Contents/Resources/tlfsuite.json");
    assert_eq!(c[2], "/apps/x/resources/tlfsuite.json");
    assert_eq!(c[3], "/apps/x/share/tlfsuite/tlfsuite.json");
}

#[test]
fn discovered_without_app_id_is_dropped() {
    let (desc, issues) = check_discovered(&None, &vec![], &"/p".to_string());
    assert!(desc.is_none());
    assert_eq!(issues.len(), 1);
    assert_eq!(issues[0].level, "SCHEMA_ERROR");
}

#[test]
fn discovered_duplicate_action_noted() {
    let actions = vec![
        RawAction { name: Some("a".to_string()), requires_elevation: false },
        RawAction { name: Some("a".to_string()), requires_elevation: true },
        RawAction { name: None, requires_elevation: false },
    ];
    let (desc, issues) = check_discovered(&Some("x".to_string()), &actions, &"/p".to_string());
    let d = desc.unwrap();
    assert_eq!(d.app_id, "x");
    assert_eq!(d.actions.len(), 2);
    assert!(issues.iter().any(|i| i.level == "SEMANTIC_ERROR"));
    assert!(issues.iter().any(|i| i.level == "SCHEMA_ERROR"));
}

#[test]
fn deeplink_prefers_declared_scheme() {
    let mut d = intent_core::launch::AppDescriptor {
        id: "clip".to_string(),
        name: None,
        description: None,
        version: None,
        scheme: Some("clipapp".to_string()),
        actions: vec![],
        path: None,
        icon: None,
    };
    let url = build_deeplink_url(Some(&d), "clip", Some("a b"));
    assert!(url.starts_with("clipapp://open?args="));
    assert!(!url.contains(' '));
    d.scheme = None;
    let url2 = build_deeplink_url(Some(&d), "clip", None);
    assert_eq!(url2, "tlfsuite://open?app=clip");
    let url3 = build_deeplink_url(None, "other", Some("x"));
    assert!(url3.starts_with("tlfsuite://open?app=other&args="));
}

#[test]
fn mime_types_by_extension() {
    assert_eq!(mime_from_ext("png"), "image/png");
    assert_eq!(mime_from_ext("PNG"), "image/png");
    assert_eq!(mime_from_ext("JpEg"), "image/jpeg");
    assert_eq!(mime_from_ext("svg"), "image/svg+xml");
    assert_eq!(mime_from_ext("bin"), "application/octet-stream");
}

#[test]
fn fallback_name_title_cases_identifier() {
    assert_eq!(fallback_display_name("clipboard_manager", "dir"), "Clipboard Manager");
    assert_eq!(fallback_display_name("my-app.pro", "dir"), "My App Pro");
    assert_eq!(fallback_display_name("  ", "dir"), "dir");
    assert_eq!(fallback_display_name("...", ""), "App");
}

#[test]
fn icon_candidates_cover_common_layouts() {
    let c = default_icon_candidates("/d", "/e");
    assert_eq!(c.len(), 6);
    assert_eq!(c[0], "/d/icon.png");
    assert_eq!(c[5], "/e/Contents/Resources/icon.png");
}

#[test]
fn data_url_prefixes_mime() {
    let url = data_url_from_bytes("image/png", &vec![1, 2, 3]);
    assert!(url.starts_with("data:image/png;base64,"));
    assert_eq!(url, "data:image/png;base64,AQID");
}
