use anvaya::config::{default_bind, default_body_limit, Config, EnvSettings, RootProbe, WorkspaceRoot};
use anvaya::cors::{layer, AllowedOrigins};
use anvaya::errors::ConfigError;

fn config_with_roots(roots: Vec<&str>) -> Config {
    Config {
        roots: roots.into_iter().map(String::from).collect(),
        ..Default::default()
    }
}

#[test]
fn empty_roots_rejected() {
    let cfg = Config::default();
    assert!(matches!(cfg.roots(&vec![]), Err(ConfigError::NoRoots)));
}

#[test]
fn roots_canonicalized() {
    let cfg = config_with_roots(vec!["/tmp/anvaya-cfg"]);
    let probes = vec![RootProbe::Canonical("/tmp/anvaya-cfg".to_string())];
    let roots = cfg.roots(&probes).unwrap();
    assert_eq!(roots.len(), 1);
    assert!(roots[0].abs.starts_with('/'));
    assert_eq!(roots[0].label, "root-0");
}

#[test]
fn invalid_bind_rejected() {
    let cfg = Config {
        bind: "not-an-addr".into(),
        roots: vec!["/tmp/anvaya-cfg".to_string()],
        ..Default::default()
    };
    let probes = vec![RootProbe::Canonical("/tmp/anvaya-cfg".to_string())];
    assert!(cfg.validate(false, &probes).is_err());
    match cfg.validate(false, &probes) {
        Err(ConfigError::BadAddress(a)) => assert_eq!(a, "not-an-addr"),
        other => panic!("unexpected: {:?}", other),
    }
}

#[test]
fn valid_config_is_kept() {
    let cfg = config_with_roots(vec!["/a", "/b"]);
    let probes = vec![
        RootProbe::Canonical("/a".to_string()),
        RootProbe::Canonical("/b".to_string()),
    ];
    let c = cfg.validate(true, &probes).unwrap();
    assert_eq!(c.bind, "127.0.0.1:7878");
    assert_eq!(c.roots, vec!["/a".to_string(), "/b".to_string()]);
}

#[test]
fn missing_root_is_reported() {
    let cfg = config_with_roots(vec!["/a", "/gone", "/c"]);
    let probes = vec![
        RootProbe::Canonical("/a".to_string()),
        RootProbe::Missing,
        RootProbe::Failed("denied".to_string()),
    ];
    match cfg.roots(&probes) {
        Err(ConfigError::RootMissing(p)) => assert_eq!(p, "/gone"),
        other => panic!("unexpected: {:?}", other),
    }
    assert!(cfg.validate(true, &probes).is_err());
}

#[test]
fn canonicalize_failure_is_reported() {
    let cfg = config_with_roots(vec!["/x"]);
    let probes = vec![RootProbe::Failed("permission denied".to_string())];
    match cfg.roots(&probes) {
        Err(ConfigError::Canonicalize { path, source }) => {
            assert_eq!(path, "/x");
            assert_eq!(source, "permission denied");
        }
        other => panic!("unexpected: {:?}", other),
    }
}

#[test]
fn labels_count_from_zero() {
    let cfg = config_with_roots(vec!["/a", "/b", "/c"]);
    let probes = vec![
        RootProbe::Canonical("/ra".to_string()),
        RootProbe::Canonical("/rb".to_string()),
        RootProbe::Canonical("/rc".to_string()),
    ];
    let roots = cfg.roots(&probes).unwrap();
    assert_eq!(roots[2].abs, "/rc");
    assert_eq!(roots[2].label, "root-2");
}

#[test]
fn defaults() {
    assert_eq!(default_bind(), "127.0.0.1:7878");
    assert_eq!(default_body_limit(), 16 * 1024 * 1024);
    let cfg = Config::default();
    assert!(!cfg.auto_approve);
    assert!(cfg.allowed_origins.is_empty());
}

#[test]
fn settings_override_defaults() {
    let env = EnvSettings {
        bind: Some("127.0.0.1:9000".to_string()),
        workspace: Some(" /a ; ;/b;".to_string()),
        auto_approve: Some("yes".to_string()),
        body_limit: Some("1024".to_string()),
        allowed_origins: Some("chrome-extension://abc; moz-extension://def".to_string()),
    };
    let cfg = Config::from_settings(&env);
    assert_eq!(cfg.bind, "127.0.0.1:9000");
    assert_eq!(cfg.roots, vec!["/a".to_string(), "/b".to_string()]);
    assert!(cfg.auto_approve);
    assert_eq!(cfg.body_limit_bytes, 1024);
    assert_eq!(
        cfg.allowed_origins,
        vec!["chrome-extension://abc".to_string(), "moz-extension://def".to_string()]
    );
}

#[test]
fn unset_settings_keep_defaults() {
    let env = EnvSettings {
        bind: None,
        workspace: None,
        auto_approve: Some("on".to_string()),
        body_limit: Some("lots".to_string()),
        allowed_origins: None,
    };
    let cfg = Config::from_settings(&env);
    assert_eq!(cfg.bind, "127.0.0.1:7878");
    assert!(cfg.roots.is_empty());
    assert!(!cfg.auto_approve);
    assert_eq!(cfg.body_limit_bytes, 16 * 1024 * 1024);
    let env2 = EnvSettings {
        bind: None,
        workspace: None,
        auto_approve: Some("TRUE".to_string()),
        body_limit: Some("+77".to_string()),
        allowed_origins: None,
    };
    let cfg2 = Config::from_settings(&env2);
    assert!(cfg2.auto_approve);
    assert_eq!(cfg2.body_limit_bytes, 77);
}

#[test]
fn workspace_root_contains() {
    let root = WorkspaceRoot::new("/ws", "w".to_string(), RootProbe::Canonical("/ws".to_string())).unwrap();
    assert!(root.contains("/ws"));
    assert!(root.contains("/ws/a/b"));
    assert!(!root.contains("/wsx"));
    assert!(!root.contains("/other"));
}

#[test]
fn workspace_root_missing() {
    assert!(matches!(
        WorkspaceRoot::new("/nope", "n".to_string(), RootProbe::Missing),
        Err(ConfigError::RootMissing(_))
    ));
}

#[test]
fn config_error_messages() {
    assert_eq!(
        ConfigError::NoRoots.message(),
        "no workspace roots configured; refusing to start"
    );
    assert_eq!(
        ConfigError::BadAddress("x".to_string()).message(),
        "invalid bind address: x"
    );
}

#[test]
fn cors_empty_list_allows_any() {
    let cfg = Config::default();
    assert!(matches!(layer(&cfg), AllowedOrigins::Any));
}

#[test]
fn cors_keeps_valid_origins() {
    let cfg = Config {
        allowed_origins: vec![
            "chrome-extension://abc".to_string(),
            "bad\norigin".to_string(),
            "moz-extension://def".to_string(),
        ],
        ..Default::default()
    };
    match layer(&cfg) {
        AllowedOrigins::List(v) => assert_eq!(
            v,
            vec!["chrome-extension://abc".to_string(), "moz-extension://def".to_string()]
        ),
        AllowedOrigins::Any => panic!("expected a list"),
    }
}

#[test]
fn cors_only_invalid_origins_admit_nobody() {
    let cfg = Config {
        allowed_origins: vec!["bad\u{7f}".to_string(), "\r\n".to_string()],
        ..Default::default()
    };
    match layer(&cfg) {
        AllowedOrigins::List(v) => assert!(v.is_empty()),
        AllowedOrigins::Any => panic!("a listed origin must lock the policy down"),
    }
    let one_bad = Config { allowed_origins: vec!["bad\norigin".to_string()], ..Default::default() };
    assert!(matches!(layer(&one_bad), AllowedOrigins::List(v) if v.is_empty()));
}

#[test]
fn unset_workspace_gives_no_roots() {
    let env = EnvSettings {
        bind: None,
        workspace: None,
        auto_approve: None,
        body_limit: None,
        allowed_origins: None,
    };
    let cfg = Config::from_settings(&env);
    assert!(matches!(cfg.validate(true, &vec![]), Err(ConfigError::NoRoots)));
}

#[test]
fn workspace_list_validates() {
    let env = EnvSettings {
        bind: None,
        workspace: Some(" /a ; ;/b ".to_string()),
        auto_approve: None,
        body_limit: None,
        allowed_origins: None,
    };
    let cfg = Config::from_settings(&env);
    let probes = vec![
        RootProbe::Canonical("/a".to_string()),
        RootProbe::Canonical("/b".to_string()),
    ];
    let c = cfg.validate(true, &probes).unwrap();
    assert_eq!(c.roots, vec!["/a".to_string(), "/b".to_string()]);
    assert_eq!(c.bind, "127.0.0.1:7878");
    assert!(!c.auto_approve);
    assert_eq!(c.body_limit_bytes, 16777216);
    assert!(c.allowed_origins.is_empty());
    let missing = vec![RootProbe::Canonical("/a".to_string()), RootProbe::Missing];
    assert!(matches!(cfg.validate(true, &missing), Err(ConfigError::RootMissing(p)) if p == "/b"));
}
