use host_core::config::{
    authenticate, cors_layer, parse_allowed_origins, CorsOrigins, CorsPolicy, HostConfig, HostEnv,
    DEFAULT_KOVREX_FILE_API,
};
use host_core::text::trim_str;

fn empty_env() -> HostEnv {
    HostEnv {
        host_port: None,
        port: None,
        max_body_mb: None,
        allowed_origins: None,
        bind: None,
        api_token: None,
        kovrex_file_api: None,
    }
}

fn config_with_token(token: Option<&str>) -> HostConfig {
    HostConfig {
        bind: "127.0.0.1".to_string(),
        port: 0,
        api_token: token.map(str::to_string),
        allowed_origins: Vec::new(),
        max_body_bytes: 1024 * 1024,
        kovrex_file_api: "http://127.0.0.1:1".to_string(),
    }
}

fn config_with_origins(origins: &[&str]) -> HostConfig {
    let mut config = config_with_token(None);
    config.allowed_origins = origins.iter().map(|o| o.to_string()).collect();
    config
}

#[test]
fn from_env_defaults() {
    let config = HostConfig::from_env(empty_env());
    assert_eq!(config.bind, "0.0.0.0");
    assert_eq!(config.port, 8080);
    assert_eq!(config.api_token, None);
    assert!(config.allowed_origins.is_empty());
    assert_eq!(config.max_body_bytes, 50 * 1024 * 1024);
    assert_eq!(config.kovrex_file_api, DEFAULT_KOVREX_FILE_API);
    assert_eq!(DEFAULT_KOVREX_FILE_API, "https://gateway.kovrex.ai/v1/files");
}

#[test]
fn from_env_reads_values() {
    let env = HostEnv {
        host_port: Some("9000".to_string()),
        port: Some("7000".to_string()),
        max_body_mb: Some("2".to_string()),
        allowed_origins: Some(" https://a.example , ,https://b.example,".to_string()),
        bind: Some("127.0.0.1".to_string()),
        api_token: Some("s3cret".to_string()),
        kovrex_file_api: Some("http://files.local/".to_string()),
    };
    let config = HostConfig::from_env(env);
    assert_eq!(config.port, 9000);
    assert_eq!(config.max_body_bytes, 2 * 1024 * 1024);
    assert_eq!(config.allowed_origins, vec!["https://a.example", "https://b.example"]);
    assert_eq!(config.bind, "127.0.0.1");
    assert_eq!(config.api_token.as_deref(), Some("s3cret"));
    assert_eq!(config.kovrex_file_api, "http://files.local/");
}

#[test]
fn from_env_port_fallback() {
    let mut env = empty_env();
    env.port = Some("7000".to_string());
    assert_eq!(HostConfig::from_env(env.clone()).port, 7000);
    env.host_port = Some("not-a-port".to_string());
    assert_eq!(HostConfig::from_env(env.clone()).port, 8080);
    env.host_port = Some("70000".to_string());
    assert_eq!(HostConfig::from_env(env).port, 8080);
}

#[test]
fn from_env_ignores_empty_token_and_bad_limit() {
    let mut env = empty_env();
    env.api_token = Some(String::new());
    env.max_body_mb = Some("lots".to_string());
    let config = HostConfig::from_env(env);
    assert_eq!(config.api_token, None);
    assert_eq!(config.max_body_bytes, 50 * 1024 * 1024);
}

#[test]
fn allowed_origins_are_trimmed_and_non_empty() {
    assert_eq!(parse_allowed_origins(""), Vec::<String>::new());
    assert_eq!(parse_allowed_origins(",,"), Vec::<String>::new());
    assert_eq!(parse_allowed_origins("*"), vec!["*"]);
    assert_eq!(
        parse_allowed_origins("\u{3000}a\t,\u{a0}b c\n,"),
        vec!["a".to_string(), "b c".to_string()]
    );
    let raw = " x ,y,, z\u{2028}";
    for origin in parse_allowed_origins(raw) {
        assert!(!origin.is_empty());
        assert_eq!(trim_str(&origin), origin);
        assert!(!origin.contains(','));
        assert_eq!(origin.trim(), origin);
    }
}

#[test]
fn trim_matches_std() {
    for s in ["", "  ", " a ", "\u{85}b\u{200a}", "x\u{3000}y", "\u{feff}z"] {
        assert_eq!(trim_str(s), s.trim());
    }
}

#[test]
fn authenticate_without_token_accepts_everything() {
    let config = config_with_token(None);
    assert!(authenticate(&config, None).is_ok());
    assert!(authenticate(&config, Some("Bearer anything")).is_ok());
    assert!(authenticate(&config, Some("garbage")).is_ok());
}

#[test]
fn authenticate_checks_bearer_token() {
    let config = config_with_token(Some("s3cret"));
    assert!(authenticate(&config, Some("Bearer s3cret")).is_ok());
    assert!(authenticate(&config, Some("bearer s3cret")).is_ok());
    for header in [None, Some("BEARER s3cret"), Some("Bearer wrong"), Some("s3cret"), Some("Bearer s3cret ")] {
        let error = authenticate(&config, header).unwrap_err();
        assert_eq!(error.status(), 401);
        assert_eq!(error.message(), "invalid or missing bearer token");
    }
}

#[test]
fn authenticate_accepts_any_token_presented_as_bearer() {
    for token in ["t", "a b", "Bearer x", "ünïcode"] {
        let config = config_with_token(Some(token));
        assert!(authenticate(&config, Some(&format!("Bearer {token}"))).is_ok());
    }
}

#[test]
fn authenticate_with_empty_configured_token() {
    let config = config_with_token(Some(""));
    assert!(authenticate(&config, None).is_ok());
    assert!(authenticate(&config, Some("Bearer ")).is_ok());
    assert!(authenticate(&config, Some("Bearer x")).is_err());
}

fn policy(origins: &[&str]) -> CorsPolicy {
    match cors_layer(&config_with_origins(origins)) {
        Ok(Some(policy)) => policy,
        _ => panic!("expected a CORS layer"),
    }
}

#[test]
fn cors_layer_modes() {
    assert!(matches!(cors_layer(&config_with_origins(&[])), Ok(None)));
    let any = policy(&["*"]);
    assert!(matches!(any.origins, CorsOrigins::Any));
    assert_eq!(any.methods, vec!["GET", "POST"]);
    assert_eq!(any.headers, vec!["authorization", "content-type"]);
    let listed = policy(&["https://a.example", "*"]);
    match listed.origins {
        CorsOrigins::List(list) => assert_eq!(list, vec!["https://a.example", "*"]),
        CorsOrigins::Any => panic!("expected a list of origins"),
    }
    assert_eq!(listed.methods, vec!["GET", "POST"]);
    assert_eq!(listed.headers, vec!["authorization", "content-type"]);
}

#[test]
fn cors_layer_rejects_invalid_origin() {
    let error = cors_layer(&config_with_origins(&["https://ok.example", "bad\nvalue", "bad\u{7f}"]))
        .unwrap_err();
    assert_eq!(error.status(), 500);
    assert_eq!(
        error.message(),
        "invalid allowed origin 'bad\nvalue': failed to parse header value"
    );
    assert!(cors_layer(&config_with_origins(&["tab\tok", "ünï"])).is_ok());
}
