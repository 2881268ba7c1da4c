use openrdc_host::audit::Audit;

fn empty_params() -> serde_json::Value {
    serde_json::Value::Object(serde_json::Map::new())
}

fn lines_of(content: &str) -> Vec<String> {
    content.lines().map(|l| l.to_string()).collect()
}

#[test]
fn chain_verifies_and_tamper_detected() {
    let mut a = Audit::new();
    let mut lines = Vec::new();
    lines.push(a.record("r1", "mouse.click", empty_params(), "allow", "ok"));
    lines.push(a.record("r2", "mouse.click", empty_params(), "deny", "no cap"));
    assert_eq!(Audit::verify(&lines), (2, true));
    // Tamper: flip a byte.
    let mut c = lines.join("\n");
    c = c.replacen("allow", "deny", 1);
    assert!(!Audit::verify(&lines_of(&c)).1);
}

#[test]
fn record_line_has_expected_fields() {
    let mut a = Audit::new();
    let line = a.record_at("2024-01-01T00:00:00+00:00", "rid-1", "keyboard.type", empty_params(), "deny", "rate_limited");
    let v: serde_json::Value = serde_json::from_str(&line).unwrap();
    assert_eq!(v["seq"], 1);
    assert_eq!(v["prev_hash"], "GENESIS");
    assert_eq!(v["request_id"], "rid-1");
    assert_eq!(v["method"], "keyboard.type");
    assert_eq!(v["decision"], "deny");
    assert_eq!(v["reason"], "rate_limited");
    assert_eq!(v["ts"], "2024-01-01T00:00:00+00:00");
    let hash = v["hash"].as_str().unwrap();
    assert_eq!(hash.len(), 64);
    assert!(hash.chars().all(|c| c.is_ascii_hexdigit() && !c.is_ascii_uppercase()));
    assert_eq!(a.last_seq(), 1);
}

#[test]
fn hash_is_sha256_of_record_without_hash() {
    let mut a = Audit::new();
    let line = a.record_at("t", "r", "m", empty_params(), "allow", "ok");
    let mut v: serde_json::Value = serde_json::from_str(&line).unwrap();
    let stored = v["hash"].as_str().unwrap().to_string();
    v.as_object_mut().unwrap().remove("hash");
    let expected: String = <sha2::Sha256 as sha2::Digest>::digest(v.to_string().as_bytes())
        .iter()
        .map(|b| format!("{b:02x}"))
        .collect();
    assert_eq!(stored, expected);
}

#[test]
fn second_record_links_to_first() {
    let mut a = Audit::new();
    let l1 = a.record_at("t1", "r1", "m", empty_params(), "allow", "ok");
    let l2 = a.record_at("t2", "r2", "m", empty_params(), "allow", "ok");
    let v1: serde_json::Value = serde_json::from_str(&l1).unwrap();
    let v2: serde_json::Value = serde_json::from_str(&l2).unwrap();
    assert_eq!(v2["seq"], 2);
    assert_eq!(v2["prev_hash"], v1["hash"]);
}

#[test]
fn reopen_continues_chain() {
    let mut a = Audit::new();
    let mut lines = Vec::new();
    lines.push(a.record("r1", "screen.capture", empty_params(), "allow", "ok"));
    lines.push(a.record("r2", "mouse.click", empty_params(), "deny", "stale_frame"));
    let mut b = Audit::open(&lines);
    assert_eq!(b.last_seq(), 2);
    lines.push(b.record("r3", "keyboard.type", empty_params(), "allow", "ok"));
    assert_eq!(Audit::verify(&lines), (3, true));
}

#[test]
fn open_skips_junk_lines() {
    let mut a = Audit::new();
    let mut lines = vec!["garbage".to_string()];
    lines.push(a.record("r1", "m", empty_params(), "allow", "ok"));
    lines.push("{\"no\":\"fields\"}".to_string());
    let b = Audit::open(&lines);
    assert_eq!(b.last_seq(), 1);
}

#[test]
fn verify_rejects_reordered_and_broken_chains() {
    let mut a = Audit::new();
    let l1 = a.record("r1", "m", empty_params(), "allow", "ok");
    let l2 = a.record("r2", "m", empty_params(), "allow", "ok");
    let l3 = a.record("r3", "m", empty_params(), "allow", "ok");
    assert_eq!(Audit::verify(&vec![l1.clone(), l3.clone()]), (1, false));
    assert_eq!(Audit::verify(&vec![l2.clone(), l1.clone()]), (0, false));
    assert_eq!(Audit::verify(&vec![l1.clone(), l2.clone(), "x".to_string()]), (2, false));
    assert_eq!(Audit::verify(&vec![]), (0, true));
}

#[test]
fn file_text_is_checked_line_by_line() {
    let mut a = Audit::new();
    let l1 = a.record("r1", "mouse.click", empty_params(), "allow", "ok");
    let l2 = a.record("r2", "keyboard.type", empty_params(), "deny", "rate_limited");
    let content = format!("{l1}\n{l2}\n");
    assert_eq!(Audit::verify_content(&content), (2, true));
    assert_eq!(Audit::verify_content(""), (0, true));
    let crlf = format!("{l1}\r\n{l2}\r\n");
    assert_eq!(Audit::verify_content(&crlf), (2, true));
    let b = Audit::open_content(&content);
    assert_eq!(b.last_seq(), 2);
    assert_eq!(Audit::open_content("").last_seq(), 0);
}

#[test]
fn appending_to_a_valid_log_keeps_it_valid() {
    let mut a = Audit::new();
    let mut content = String::new();
    for i in 0..3 {
        let line = a.record(&format!("r{i}"), "keyboard.press", empty_params(), "allow", "ok");
        content.push_str(&line);
        content.push('\n');
    }
    assert_eq!(Audit::verify_content(&content), (3, true));
    let mut b = Audit::open_content(&content);
    let mut params = serde_json::Map::new();
    params.insert("key".to_string(), serde_json::Value::from("Tab"));
    params.insert("modifiers".to_string(), serde_json::Value::Array(vec![serde_json::Value::from("alt")]));
    let line = b.record("r3", "keyboard.press", serde_json::Value::Object(params), "allow", "ok");
    content.push_str(&line);
    content.push('\n');
    assert_eq!(Audit::verify_content(&content), (4, true));
    assert_eq!(Audit::open_content(&content).last_seq(), 4);
}

#[test]
fn negative_and_deeply_nested_params_keep_the_chain() {
    let mut params = serde_json::Value::from(-42i64);
    for _ in 0..120 {
        params = serde_json::Value::Array(vec![params, serde_json::Value::from(i64::MIN)]);
    }
    let mut a = Audit::new();
    let l1 = a.record("r1", "m", params, "allow", "ok");
    let l2 = a.record("r2", "m", empty_params(), "deny", "x");
    let content = format!("{l1}\n{l2}\n");
    assert_eq!(Audit::verify_content(&content), (2, true));
    assert_eq!(Audit::open_content(&content).last_seq(), 2);
}
