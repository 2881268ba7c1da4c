use openrdc_host::cli::{arg_value, has_flag, port_from, verify_report};

fn args(v: &[&str]) -> Vec<String> {
    v.iter().map(|s| s.to_string()).collect()
}

#[test]
fn option_with_separate_value() {
    let a = args(&["--port", "9000", "--caps", "c.json"]);
    assert_eq!(arg_value(&a, "--port", "18789"), "9000");
    assert_eq!(arg_value(&a, "--caps", "x"), "c.json");
    assert_eq!(arg_value(&a, "--audit", "/tmp/openrdc-audit.jsonl"), "/tmp/openrdc-audit.jsonl");
}

#[test]
fn option_with_equals() {
    let a = args(&["--audit=/var/log/a.jsonl", "--port=1"]);
    assert_eq!(arg_value(&a, "--audit", "d"), "/var/log/a.jsonl");
    assert_eq!(arg_value(&a, "--port", "d"), "1");
    assert_eq!(arg_value(&args(&["--port="]), "--port", "d"), "");
}

#[test]
fn option_without_value_takes_default() {
    assert_eq!(arg_value(&args(&["--port"]), "--port", "18789"), "18789");
    // The first mention decides.
    assert_eq!(arg_value(&args(&["--port", "1", "--port", "2"]), "--port", "d"), "1");
    // A longer option sharing the prefix is not the option.
    assert_eq!(arg_value(&args(&["--ports", "5"]), "--port", "d"), "d");
}

#[test]
fn flags_and_ports() {
    assert!(has_flag(&args(&["host", "--verify"]), "--verify"));
    assert!(!has_flag(&args(&["host", "--verify=1"]), "--verify"));
    assert_eq!(port_from("9000", 18789), 9000);
    assert_eq!(port_from("+80", 18789), 80);
    assert_eq!(port_from("65536", 18789), 18789);
    assert_eq!(port_from("-1", 18789), 18789);
    assert_eq!(port_from("", 18789), 18789);
    assert_eq!(port_from(" 80", 18789), 18789);
}

#[test]
fn verify_report_lines() {
    assert_eq!(verify_report(3, true), ("records=3 chain_valid=true".to_string(), 0));
    assert_eq!(verify_report(0, true), ("records=0 chain_valid=true".to_string(), 1));
    assert_eq!(verify_report(2, false), ("records=2 chain_valid=false".to_string(), 1));
}
