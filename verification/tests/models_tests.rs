use tembo::models::{
    EnvVar, EnvVarRef, Memory, MiddlewareOneOf2, PoolerTemplateSpecContainersResources,
    ReplacePathRegexConfig,
};

#[test]
fn memory_labels_round_trip() {
    assert_eq!(Memory::from_str("1Gi"), Ok(Memory::Variant1Gi));
    assert_eq!(Memory::from_str("2Gi"), Ok(Memory::Variant2Gi));
    assert_eq!(Memory::from_str("4Gi"), Ok(Memory::Variant4Gi));
    assert_eq!(Memory::from_str("8Gi"), Ok(Memory::Variant8Gi));
    assert_eq!(Memory::from_str("16Gi"), Ok(Memory::Variant16Gi));
    assert_eq!(Memory::from_str("32Gi"), Ok(Memory::Variant32Gi));
    assert_eq!(Memory::from_str("64Gi"), Err(()));
    assert_eq!(Memory::from_str(""), Err(()));
    assert_eq!(Memory::Variant16Gi.to_string(), "16Gi");
    assert_eq!(Memory::default(), Memory::Variant1Gi);
}

#[test]
fn env_var_ref_labels_and_default() {
    assert_eq!(EnvVarRef::ReadOnlyConnection.to_string(), "ReadOnlyConnection");
    assert_eq!(EnvVarRef::ReadWriteConnection.to_string(), "ReadWriteConnection");
    assert_eq!(EnvVarRef::default(), EnvVarRef::ReadOnlyConnection);
}

#[test]
fn env_var_new_sets_only_the_name() {
    let v = EnvVar::new("DATABASE_URL".to_string());
    assert_eq!(v.name, "DATABASE_URL");
    assert!(v.value.is_none());
    assert!(v.value_from_platform.is_none());
}

#[test]
fn middleware_wraps_its_rewrite_rule() {
    let rule = ReplacePathRegexConfig {
        regex: "^/old".to_string(),
        replacement: "/new".to_string(),
    };
    let m = MiddlewareOneOf2::new(rule);
    assert_eq!(m.replace_path_regex.regex, "^/old");
    assert_eq!(m.replace_path_regex.replacement, "/new");
}

#[test]
fn pooler_resources_start_empty() {
    let r = PoolerTemplateSpecContainersResources::new();
    assert!(r.claims.is_none());
    assert!(r.limits.is_none());
    assert!(r.requests.is_none());
}
