use tunnel::rule::{parse_rule, RuleError};

#[test]
fn rule_source_port_only() {
    assert_eq!(parse_rule("8080"), Ok((8080, "127.0.0.1:8080".to_string())));
}

#[test]
fn rule_bare_destination_port() {
    assert_eq!(parse_rule("8080:9090"), Ok((8080, "127.0.0.1:9090".to_string())));
}

#[test]
fn rule_host_and_port() {
    assert_eq!(parse_rule("8080:10.0.0.1:9090"), Ok((8080, "10.0.0.1:9090".to_string())));
}

#[test]
fn rule_named_host_kept_verbatim() {
    assert_eq!(parse_rule("22:example.org:x"), Ok((22, "example.org:x".to_string())));
}

#[test]
fn rule_bad_source_port() {
    assert_eq!(parse_rule("abc"), Err(RuleError::InvalidSrcPort));
    assert_eq!(parse_rule("70000"), Err(RuleError::InvalidSrcPort));
    assert_eq!(parse_rule(""), Err(RuleError::InvalidSrcPort));
    assert_eq!(parse_rule(":80"), Err(RuleError::InvalidSrcPort));
    assert_eq!(parse_rule("-1:80"), Err(RuleError::InvalidSrcPort));
}

#[test]
fn rule_bad_destination_port() {
    assert_eq!(parse_rule("8080:xyz"), Err(RuleError::InvalidDstPort));
    assert_eq!(parse_rule("8080:"), Err(RuleError::InvalidDstPort));
    assert_eq!(parse_rule("8080:65536"), Err(RuleError::InvalidDstPort));
}

#[test]
fn rule_port_edges() {
    assert_eq!(parse_rule("0:65535"), Ok((0, "127.0.0.1:65535".to_string())));
    assert_eq!(parse_rule("+80:007"), Ok((80, "127.0.0.1:7".to_string())));
}
