use kasmctl::config::{
    find_context, resolve_from_config, resolve_server_override, set_context, use_context, Context,
    KasmConfig, NamedContext,
};

fn make_named(name: &str) -> NamedContext {
    NamedContext {
        name: name.into(),
        context: Context {
            server: format!("https://{name}.example.com"),
            api_key: "key".into(),
            api_secret: "secret".into(),
            insecure_skip_tls_verify: false,
            timeout_seconds: None,
        },
    }
}

#[test]
fn find_context_success() {
    let contexts = vec![make_named("prod"), make_named("staging")];
    let ctx = find_context(&contexts, "staging").unwrap();
    assert_eq!(ctx.server, "https://staging.example.com");
}

#[test]
fn find_context_not_found() {
    let contexts = vec![make_named("prod")];
    let result = find_context(&contexts, "missing");
    assert!(result.is_err());
    let message = result.unwrap_err().to_string();
    assert!(message.contains("not found"));
    assert!(message.contains("missing"));
}

#[test]
fn find_context_empty_list() {
    let result = find_context(&[], "anything");
    assert!(result.is_err());
}

#[test]
fn find_context_returns_first_match() {
    let mut second = make_named("prod");
    second.context.server = "https://prod-second.example.com".into();
    let contexts = vec![make_named("prod"), second];
    let ctx = find_context(&contexts, "prod").unwrap();
    assert_eq!(ctx.server, "https://prod.example.com");
}

#[test]
fn default_config_is_empty() {
    let config = KasmConfig::default();
    assert!(config.current_context.is_none());
    assert!(config.contexts.is_empty());
}

// --- resolve_server_override ---

#[test]
fn resolve_server_override_builds_context() {
    let ctx = resolve_server_override(
        "https://override.example.com",
        "env-key".into(),
        "env-secret".into(),
    )
    .unwrap();

    assert_eq!(ctx.server, "https://override.example.com");
    assert_eq!(ctx.api_key, "env-key");
    assert_eq!(ctx.api_secret, "env-secret");
    assert!(!ctx.insecure_skip_tls_verify);
}

// --- resolve_from_config ---

fn make_context(name: &str, server: &str) -> NamedContext {
    NamedContext {
        name: name.into(),
        context: Context {
            server: server.into(),
            api_key: format!("{name}-key"),
            api_secret: format!("{name}-secret"),
            insecure_skip_tls_verify: false,
            timeout_seconds: None,
        },
    }
}

#[test]
fn resolve_from_config_named_context_override() {
    let config = KasmConfig {
        current_context: Some("prod".into()),
        contexts: vec![
            make_context("prod", "https://prod.example.com"),
            make_context("staging", "https://staging.example.com"),
        ],
    };

    let ctx = resolve_from_config(&config, Some("staging")).unwrap();
    assert_eq!(ctx.server, "https://staging.example.com");
}

#[test]
fn resolve_from_config_uses_current_context() {
    let config = KasmConfig {
        current_context: Some("prod".into()),
        contexts: vec![
            make_context("prod", "https://prod.example.com"),
            make_context("staging", "https://staging.example.com"),
        ],
    };

    let ctx = resolve_from_config(&config, None).unwrap();
    assert_eq!(ctx.server, "https://prod.example.com");
}

#[test]
fn resolve_from_config_no_context_configured() {
    let config = KasmConfig {
        current_context: None,
        contexts: vec![],
    };

    let result = resolve_from_config(&config, None);
    assert!(result.is_err());
    assert!(result.unwrap_err().to_string().contains("no context"));
}

#[test]
fn resolve_from_config_current_context_not_found() {
    let config = KasmConfig {
        current_context: Some("missing".into()),
        contexts: vec![make_context("prod", "https://prod.example.com")],
    };

    let result = resolve_from_config(&config, None);
    assert!(result.is_err());
    assert!(result.unwrap_err().to_string().contains("not found"));
}

#[test]
fn resolve_from_config_override_not_found() {
    let config = KasmConfig {
        current_context: Some("prod".into()),
        contexts: vec![make_context("prod", "https://prod.example.com")],
    };

    let result = resolve_from_config(&config, Some("nonexistent"));
    assert!(result.is_err());
    assert!(result.unwrap_err().to_string().contains("not found"));
}

// --- set_context / use_context ---

#[test]
fn set_context_appends_and_selects_first() {
    let mut config = KasmConfig::default();
    let ctx = make_context("prod", "https://prod.example.com").context;
    set_context(&mut config, "prod", &ctx);
    assert_eq!(config.contexts.len(), 1);
    assert_eq!(config.contexts[0].name, "prod");
    assert_eq!(config.current_context.as_deref(), Some("prod"));
}

#[test]
fn set_context_replaces_existing_entry() {
    let mut config = KasmConfig {
        current_context: Some("staging".into()),
        contexts: vec![
            make_context("prod", "https://prod.example.com"),
            make_context("staging", "https://staging.example.com"),
        ],
    };
    let ctx = make_context("prod", "https://prod2.example.com").context;
    set_context(&mut config, "prod", &ctx);
    assert_eq!(config.contexts.len(), 2);
    assert_eq!(config.contexts[0].context.server, "https://prod2.example.com");
    assert_eq!(config.contexts[1].context.server, "https://staging.example.com");
    // an already selected context stays selected
    assert_eq!(config.current_context.as_deref(), Some("staging"));
}

#[test]
fn use_context_switches_when_present() {
    let mut config = KasmConfig {
        current_context: Some("prod".into()),
        contexts: vec![
            make_context("prod", "https://prod.example.com"),
            make_context("staging", "https://staging.example.com"),
        ],
    };
    assert!(use_context(&mut config, "staging").is_ok());
    assert_eq!(config.current_context.as_deref(), Some("staging"));
}

#[test]
fn use_context_fails_when_missing() {
    let mut config = KasmConfig {
        current_context: Some("prod".into()),
        contexts: vec![make_context("prod", "https://prod.example.com")],
    };
    let result = use_context(&mut config, "missing");
    assert!(result.is_err());
    assert_eq!(config.current_context.as_deref(), Some("prod"));
}
