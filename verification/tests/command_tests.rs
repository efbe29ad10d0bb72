use harness_mcp::command::build;
use harness_mcp::command::required_keys;
use harness_mcp::command::BuildError;
use harness_mcp::command::CredentialRule;
use harness_mcp::command::CredentialTarget;
use harness_mcp::credentials::from_pairs;

fn pairs(entries: &[(&str, &str)]) -> Vec<(String, String)> {
    entries.iter().map(|(k, v)| (k.to_string(), v.to_string())).collect()
}

fn rule(key: &str, required: bool, target: CredentialTarget) -> CredentialRule {
    CredentialRule { key: key.to_string(), required, target }
}

fn base_args() -> Vec<String> {
    vec!["stdio".to_string(), "--toolsets=fme".to_string()]
}

#[test]
fn env_mapping_produces_environment_variable() {
    let creds = from_pairs(&pairs(&[("api_key", "s3cr3t")]));
    let rules = vec![rule(
        "api_key",
        true,
        CredentialTarget::EnvVar("HARNESS_API_KEY".to_string()),
    )];
    let inv = build("/work/harness-mcp-server", &base_args(), &creds, &rules).unwrap();
    assert_eq!(inv.executable_path, "/work/harness-mcp-server");
    assert_eq!(inv.arguments, base_args());
    assert_eq!(
        inv.environment,
        vec![("HARNESS_API_KEY".to_string(), "s3cr3t".to_string())]
    );
}

#[test]
fn flag_mapping_appends_argument_after_base_args() {
    let creds = from_pairs(&pairs(&[("api_key", "x")]));
    let rules = vec![rule(
        "api_key",
        true,
        CredentialTarget::FlagArg("api-key".to_string()),
    )];
    let inv = build("/bin/server", &base_args(), &creds, &rules).unwrap();
    assert_eq!(
        inv.arguments,
        vec![
            "stdio".to_string(),
            "--toolsets=fme".to_string(),
            "--api-key=x".to_string(),
        ]
    );
    assert!(inv.environment.is_empty());
}

#[test]
fn missing_required_credential_is_an_error() {
    let creds = from_pairs(&pairs(&[]));
    let rules = vec![rule(
        "api_key",
        true,
        CredentialTarget::EnvVar("HARNESS_API_KEY".to_string()),
    )];
    let err = build("/bin/server", &base_args(), &creds, &rules).unwrap_err();
    match err {
        BuildError::CredentialMissing(key) => assert_eq!(key, "api_key"),
    }
}

#[test]
fn missing_optional_credential_is_simply_skipped() {
    let creds = from_pairs(&pairs(&[]));
    let rules = vec![
        rule("api_key", false, CredentialTarget::EnvVar("HARNESS_API_KEY".to_string())),
        rule("token", false, CredentialTarget::FlagArg("token".to_string())),
    ];
    let inv = build("/bin/server", &base_args(), &creds, &rules).unwrap();
    assert_eq!(inv.arguments, base_args());
    assert!(inv.environment.is_empty());
}

#[test]
fn blank_credential_never_reaches_arguments_or_environment() {
    // A blank value counts as absent at resolution, so nothing derived from
    // it can appear in the invocation.
    let creds = from_pairs(&pairs(&[("api_key", ""), ("token", "   ")]));
    let rules = vec![
        rule("api_key", false, CredentialTarget::EnvVar("HARNESS_API_KEY".to_string())),
        rule("token", false, CredentialTarget::FlagArg("token".to_string())),
    ];
    let inv = build("/bin/server", &base_args(), &creds, &rules).unwrap();
    assert_eq!(inv.arguments, base_args());
    assert!(inv.environment.is_empty());
}

#[test]
fn later_rule_wins_when_env_names_collide() {
    let creds = from_pairs(&pairs(&[("a", "1"), ("b", "2")]));
    let rules = vec![
        rule("a", false, CredentialTarget::EnvVar("X".to_string())),
        rule("b", false, CredentialTarget::EnvVar("X".to_string())),
    ];
    let inv = build("/bin/server", &base_args(), &creds, &rules).unwrap();
    assert_eq!(inv.environment, vec![("X".to_string(), "2".to_string())]);
}

#[test]
fn flag_arguments_keep_rule_order() {
    let creds = from_pairs(&pairs(&[("a", "1"), ("b", "2")]));
    let rules = vec![
        rule("a", false, CredentialTarget::FlagArg("alpha".to_string())),
        rule("b", false, CredentialTarget::FlagArg("beta".to_string())),
    ];
    let inv = build("/bin/server", &Vec::new(), &creds, &rules).unwrap();
    assert_eq!(inv.arguments, vec!["--alpha=1".to_string(), "--beta=2".to_string()]);
}

#[test]
fn required_keys_lists_only_required_rules() {
    let rules = vec![
        rule("api_key", true, CredentialTarget::EnvVar("HARNESS_API_KEY".to_string())),
        rule("token", false, CredentialTarget::FlagArg("token".to_string())),
    ];
    assert_eq!(required_keys(&rules), vec!["api_key".to_string()]);
}
