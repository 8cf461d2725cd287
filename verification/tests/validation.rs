use commitlint::Config;
use commitlint::EmptyRuleSet;
use commitlint::Message;
use commitlint::Severity;
use commitlint::Violation;
use commitlint::validate;

#[test]
fn validate_is_a_pass_through() {
    let m = Message::new(String::from("feat: add validation"));
    let config = Config { rules: EmptyRuleSet };
    let r = validate(&m, &config);
    assert!(r.is_ok());
    assert!(r.unwrap().violations.is_empty());
}

#[test]
fn violations_carry_rule_severity_and_message() {
    let v = Violation {
        rule: String::from("type-empty"),
        severity: Severity::Error,
        message: String::from("type is missing"),
    };
    assert_eq!(v.rule, "type-empty");
    assert_eq!(v.severity, Severity::Error);
    assert_ne!(v.severity, Severity::Warning);
    assert_eq!(v.message, "type is missing");
}

#[test]
fn validate_accepts_unstructured_messages() {
    let m = Message::new(String::from("no structure here"));
    let config = Config { rules: EmptyRuleSet };
    let r = validate(&m, &config);
    assert!(r.is_ok());
    assert!(r.unwrap().violations.is_empty());
}
