use harness_mcp::credentials::from_pairs;
use harness_mcp::credentials::parse_credential_file;
use harness_mcp::credentials::parse_line;
use harness_mcp::credentials::resolve;
use harness_mcp::credentials::CredentialSource;

fn pairs(entries: &[(&str, &str)]) -> Vec<(String, String)> {
    entries.iter().map(|(k, v)| (k.to_string(), v.to_string())).collect()
}

#[test]
fn file_round_trip_strips_double_quotes() {
    let set = parse_credential_file("API_KEY=\"abc123\"");
    assert_eq!(set.lookup("API_KEY"), Some("abc123".to_string()));
}

#[test]
fn file_strips_single_quotes() {
    let set = parse_credential_file("API_KEY='abc123'");
    assert_eq!(set.lookup("API_KEY"), Some("abc123".to_string()));
}

#[test]
fn mismatched_quotes_kept_verbatim() {
    let set = parse_credential_file("K=\"abc'");
    assert_eq!(set.lookup("K"), Some("\"abc'".to_string()));
}

#[test]
fn only_one_quote_layer_is_stripped() {
    let set = parse_credential_file("K=\"\"abc\"\"");
    assert_eq!(set.lookup("K"), Some("\"abc\"".to_string()));
}

#[test]
fn blank_lines_and_comments_are_ignored() {
    let text = "\n# comment line\n\nAPI_KEY=yes\n   \n# another\n";
    let set = parse_credential_file(text);
    assert_eq!(set.lookup("API_KEY"), Some("yes".to_string()));
    assert_eq!(set.entries.len(), 1);
}

#[test]
fn value_split_on_first_equals_only() {
    let set = parse_credential_file("K=a=b=c");
    assert_eq!(set.lookup("K"), Some("a=b=c".to_string()));
}

#[test]
fn surrounding_whitespace_is_trimmed() {
    let set = parse_credential_file("  K  =  v v  \r\n");
    assert_eq!(set.lookup("K"), Some("v v".to_string()));
}

#[test]
fn malformed_line_is_skipped_not_fatal() {
    let set = parse_credential_file("no equals sign here\nK=v\n=nokey\n");
    assert_eq!(set.lookup("K"), Some("v".to_string()));
    assert_eq!(set.entries.len(), 1);
}

#[test]
fn empty_value_is_absent() {
    let set = parse_credential_file("K=\nK2=\"\"\nK3='   '\n");
    assert_eq!(set.lookup("K"), None);
    assert_eq!(set.lookup("K2"), None);
    assert_eq!(set.lookup("K3"), None);
    assert_eq!(set.entries.len(), 0);
}

#[test]
fn first_file_occurrence_wins() {
    let set = parse_credential_file("K=a\nK=b\n");
    assert_eq!(set.lookup("K"), Some("a".to_string()));
    assert_eq!(set.entries.len(), 1);
}

#[test]
fn parse_line_comment_yields_nothing() {
    assert_eq!(parse_line("# K=v"), None);
    assert_eq!(parse_line("   "), None);
    assert_eq!(
        parse_line(" K = \"v\" "),
        Some(("K".to_string(), "v".to_string()))
    );
}

#[test]
fn structured_blank_value_is_absent() {
    let set = from_pairs(&pairs(&[("api_key", "   "), ("other", "")]));
    assert_eq!(set.lookup("api_key"), None);
    assert_eq!(set.lookup("other"), None);
}

#[test]
fn structured_blank_then_provided_uses_provided() {
    let set = from_pairs(&pairs(&[("k", ""), ("k", "z")]));
    assert_eq!(set.lookup("k"), Some("z".to_string()));
}

#[test]
fn structured_source_takes_precedence_over_file() {
    let sources = vec![
        CredentialSource::Structured(pairs(&[("API_KEY", "x")])),
        CredentialSource::EnvFile("API_KEY=y\n".to_string()),
    ];
    let set = resolve(&sources);
    assert_eq!(set.lookup("API_KEY"), Some("x".to_string()));
}

#[test]
fn file_source_takes_precedence_when_listed_first() {
    let sources = vec![
        CredentialSource::EnvFile("API_KEY=y\n".to_string()),
        CredentialSource::Structured(pairs(&[("API_KEY", "x")])),
    ];
    let set = resolve(&sources);
    assert_eq!(set.lookup("API_KEY"), Some("y".to_string()));
}

#[test]
fn blank_value_in_first_source_falls_through() {
    let sources = vec![
        CredentialSource::Structured(pairs(&[("API_KEY", "")])),
        CredentialSource::EnvFile("API_KEY=y\n".to_string()),
    ];
    let set = resolve(&sources);
    assert_eq!(set.lookup("API_KEY"), Some("y".to_string()));
}

#[test]
fn keys_missing_from_all_sources_are_absent() {
    let sources = vec![
        CredentialSource::Structured(pairs(&[("a", "1")])),
        CredentialSource::EnvFile("b=2\n".to_string()),
    ];
    let set = resolve(&sources);
    assert_eq!(set.lookup("a"), Some("1".to_string()));
    assert_eq!(set.lookup("b"), Some("2".to_string()));
    assert_eq!(set.lookup("c"), None);
}
