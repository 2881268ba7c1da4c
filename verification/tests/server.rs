use openrdc_host::audit::Audit;
use openrdc_host::backends::{FrameStore, MonitorInfo, RawFrame};
use openrdc_host::capabilities::Capabilities;
use openrdc_host::server::{
    check_frame, finish_capture, finish_click, finish_press, finish_type, guard, guard_after,
    locate_click, plan_capture, plan_click, plan_press, plan_type, render_capture, system_info,
    Finish, GuardDecision, Rendered,
};

const TOKEN: &str = "test-token";

fn caps(granted: &str) -> Capabilities {
    Capabilities::load_json(granted).unwrap()
}

fn fake_frame() -> RawFrame {
    RawFrame {
        monitor_id: "m0".into(),
        source_width: 800,
        source_height: 600,
        rgba: [128u8, 64, 32, 255].repeat(800 * 600),
    }
}

fn fake_monitors() -> Vec<MonitorInfo> {
    vec![MonitorInfo { monitor_id: "m0".into(), source_width: 800, source_height: 600, is_primary: true }]
}

/// The input backend of the tests: only the key "Nope" is unknown.
fn fake_press(key: &str) -> Result<(), String> {
    if key == "Nope" {
        Err("unknown key: Nope".into())
    } else {
        Ok(())
    }
}

/// Writes the audit record of a finished request, as the host does, and
/// checks that the reply's request id is in it.
fn audited(audit: &mut Audit, f: &Finish) -> String {
    let a = &f.audit;
    let line = audit.record(&a.request_id, &a.method, a.params.clone(), &a.decision, &a.reason);
    if f.reply.status != 200 {
        let rid = f.reply.body["error"]["request_id"].as_str().expect("envelope carries request_id");
        assert!(line.contains(rid), "request_id {rid} must appear in audit log");
    }
    line
}

/// The host's capture rendering: check the frame, size it in floating
/// point, then scale and encode it.
fn render(rid: &str, raw: Result<RawFrame, String>, max_width: u32) -> Result<Rendered, Finish> {
    let frame = check_frame(rid, raw)?;
    let (w, h) = (frame.source_width, frame.source_height);
    let s = (max_width as f64 / w as f64).min(1.0);
    let (ow, oh) = ((w as f64 * s).round() as u32, (h as f64 * s).round() as u32);
    render_capture(rid, frame, max_width, ow, oh)
}

struct Host {
    caps: Capabilities,
    frames: FrameStore,
    input_hits: Vec<u64>,
    capture_hits: Vec<u64>,
    audit: Audit,
    now: u64,
}

fn host(granted: &str) -> Host {
    Host {
        caps: caps(granted),
        frames: FrameStore::new(),
        input_hits: vec![],
        capture_hits: vec![],
        audit: Audit::new(),
        now: 5_000,
    }
}

impl Host {
    fn capture(&mut self, body: &str, raw: RawFrame) -> Finish {
        let rid = "cap-rid";
        match plan_capture(&self.caps, &mut self.capture_hits, self.now, body.as_bytes(), rid) {
            Err(f) => f,
            Ok(go) => match render(rid, Ok(raw), go.max_width) {
                Err(f) => f,
                Ok(r) => finish_capture(rid, r, Ok(fake_monitors()), &mut self.frames, self.now),
            },
        }
    }

    fn click(&mut self, body: serde_json::Value) -> Finish {
        let rid = "click-rid";
        let bytes = body.to_string();
        match plan_click(&self.caps, &mut self.input_hits, &mut self.frames, self.now, bytes.as_bytes(), rid) {
            Err(f) => f,
            Ok(t) => {
                let s = t.frame.scale_num as f64 / t.frame.scale_den as f64;
                let scaled = ((t.x as f64 / s).floor() as u32, (t.y as f64 / s).floor() as u32);
                match locate_click(rid, &t, scaled) {
                    Err(f) => f,
                    Ok(go) => finish_click(rid, &go, Ok(())),
                }
            }
        }
    }

    fn press(&mut self, body: &str) -> Finish {
        let rid = "press-rid";
        match plan_press(&self.caps, &mut self.input_hits, self.now, body.as_bytes(), rid) {
            Err(f) => f,
            Ok(go) => {
                let result = fake_press(&go.key);
                finish_press(rid, &go, result)
            }
        }
    }

    fn type_text(&mut self, body: &str) -> Finish {
        let rid = "type-rid";
        match plan_type(&self.caps, &mut self.input_hits, self.now, body.as_bytes(), rid) {
            Err(f) => f,
            Ok(go) => finish_type(rid, &go, Ok(())),
        }
    }
}

fn obj(pairs: Vec<(&str, serde_json::Value)>) -> serde_json::Value {
    let mut m = serde_json::Map::new();
    for (k, v) in pairs {
        m.insert(k.to_string(), v);
    }
    serde_json::Value::Object(m)
}

#[test]
fn health_needs_no_auth() {
    assert!(matches!(guard("/health", None, None, TOKEN, "rid"), GuardDecision::Pass));
}

#[test]
fn no_token_is_401() {
    match guard("/v1/system", None, None, TOKEN, "rid") {
        GuardDecision::Refuse(f) => {
            assert_eq!(f.reply.status, 401);
            assert_eq!(f.audit.method, "auth");
            assert_eq!(f.audit.reason, "unauthorized");
        }
        GuardDecision::Pass => panic!("must refuse"),
    }
}

#[test]
fn wrong_token_is_401() {
    match guard("/v1/system", Some("Bearer wrong"), None, TOKEN, "rid") {
        GuardDecision::Refuse(f) => assert_eq!(f.reply.status, 401),
        GuardDecision::Pass => panic!("must refuse"),
    }
    assert!(matches!(guard("/v1/system", Some("Bearer test-token"), None, TOKEN, "rid"), GuardDecision::Pass));
    assert!(matches!(guard("/v1/system", Some("bearer test-token"), None, TOKEN, "rid"), GuardDecision::Refuse(_)));
}

#[test]
fn system_reports_metadata() {
    let v = system_info("fake", "fake", &caps(r#"{"granted":["screen.capture"]}"#));
    assert_eq!(v["protocol_version"], "1.0");
    let granted: Vec<serde_json::Value> = vec![serde_json::Value::from("screen.capture")];
    assert_eq!(v["granted"], serde_json::Value::Array(granted));
    assert_eq!(v["features"]["approval"], false);
    assert_eq!(v["backend"]["screen"], "fake");
}

#[test]
fn missing_capability_is_403_and_audited() {
    let mut h = host(r#"{"granted":[]}"#);
    let f = h.capture("{}", fake_frame());
    assert_eq!(f.reply.status, 403);
    assert_eq!(f.reply.body["error"]["code"], "forbidden_capability");
    audited(&mut h.audit, &f);
}

#[test]
fn capture_then_click_frame_coords() {
    let mut h = host(r#"{"granted":["screen.capture","mouse.click"]}"#);
    let cap = h.capture(r#"{"max_width": 400}"#, fake_frame());
    assert_eq!(cap.reply.status, 200);
    assert_eq!(cap.reply.body["source_width"], 800);
    assert_eq!(cap.reply.body["output_width"], 400);
    assert_eq!(cap.reply.scale, Some((400, 800)));
    let fid = cap.reply.body["frame_id"].as_str().unwrap().to_string();
    // Out-of-bounds in frame space.
    let f = h.click(obj(vec![("frame_id", fid.clone().into()), ("x", 9999.into()), ("y", 0.into())]));
    assert_eq!(f.reply.status, 400);
    // Stale frame.
    let f = h.click(obj(vec![
        ("frame_id", "00000000-0000-0000-0000-000000000000".into()),
        ("x", 1.into()),
        ("y", 1.into()),
    ]));
    assert_eq!(f.reply.status, 410);
    // Valid click.
    let f = h.click(obj(vec![("frame_id", fid.into()), ("x", 10.into()), ("y", 10.into())]));
    assert_eq!(f.reply.status, 200);
    assert_eq!(f.audit.params["native"][0], 20);
    assert_eq!(f.audit.params["native"][1], 20);
}

/// F3 adversarial: every modifier-bearing combo needs .dangerous.
#[test]
fn any_modifier_needs_dangerous_capability() {
    let mut h = host(r#"{"granted":["keyboard.press"]}"#);
    let cases: Vec<(&str, Vec<&str>)> = vec![
        ("Tab", vec!["alt"]),
        ("t", vec!["ctrl", "alt"]),
        ("w", vec!["ctrl"]),
        ("q", vec!["ctrl"]),
        ("Q", vec!["ctrl", "shift"]),
        ("F4", vec!["alt"]),
        ("Delete", vec!["alt", "ctrl"]),
        ("q", vec!["ctrl", "ctrl"]),
        ("Enter", vec!["shift"]),
    ];
    for (key, mods) in cases {
        let mods: Vec<serde_json::Value> = mods.into_iter().map(serde_json::Value::from).collect();
        let body = obj(vec![("key", key.into()), ("modifiers", serde_json::Value::Array(mods))]);
        let f = h.press(&body.to_string());
        assert_eq!(f.reply.status, 403, "key={key}");
        assert_eq!(f.reply.body["error"]["code"], "forbidden_capability", "key={key}");
        audited(&mut h.audit, &f);
    }
    // Modifier-free keys still work with plain keyboard.press.
    for key in ["Enter", "Tab", "Escape"] {
        let body = obj(vec![("key", key.into())]);
        assert_eq!(h.press(&body.to_string()).reply.status, 200);
    }
}

#[test]
fn modifiers_allowed_with_dangerous_grant_and_audited() {
    let mut h = host(r#"{"granted":["keyboard.press","keyboard.press.dangerous"]}"#);
    let f = h.press(r#"{"key": "Tab", "modifiers": ["alt"]}"#);
    assert_eq!(f.reply.status, 200);
    let line = audited(&mut h.audit, &f);
    let last: serde_json::Value = serde_json::from_str(&line).unwrap();
    assert_eq!(last["method"], "keyboard.press");
    assert_eq!(last["params_redacted"]["key"], "Tab");
    let alt: Vec<serde_json::Value> = vec![serde_json::Value::from("alt")];
    assert_eq!(last["params_redacted"]["modifiers"], serde_json::Value::Array(alt));
    // approval_id still rejected.
    let f = h.press(r#"{"key": "Enter", "approval_id": "forged"}"#);
    assert_eq!(f.reply.status, 400);
}

#[test]
fn non_string_modifiers_rejected_and_audited() {
    let mut h = host(r#"{"granted":["keyboard.press","keyboard.press.dangerous"]}"#);
    for body in [
        r#"{"key": "q", "modifiers": ["ctrl", 42]}"#,
        r#"{"key": "q", "modifiers": "ctrl"}"#,
        r#"{"key": "q", "modifiers": [null]}"#,
    ] {
        let f = h.press(body);
        assert_eq!(f.reply.status, 400);
        audited(&mut h.audit, &f);
    }
    let f = h.press(r#"{"key": "q", "modifiers": ["meta"]}"#);
    assert_eq!(f.audit.reason, "bad modifier");
}

#[test]
fn unknown_key_is_400_and_audited() {
    let mut h = host(r#"{"granted":["keyboard.press"]}"#);
    let f = h.press(r#"{"key": "Nope"}"#);
    assert_eq!(f.reply.status, 400);
    assert_eq!(f.audit.reason, "unknown key");
    audited(&mut h.audit, &f);
}

#[test]
fn huge_coordinates_rejected_before_cast() {
    let mut h = host(r#"{"granted":["screen.capture","mouse.click"]}"#);
    let cap = h.capture("{}", fake_frame());
    let fid = cap.reply.body["frame_id"].as_str().unwrap().to_string();
    let f = h.click(obj(vec![("frame_id", fid.into()), ("x", 4294967296u64.into()), ("y", 0.into())]));
    assert_eq!(f.reply.status, 400);
    assert_eq!(f.audit.reason, "out of bounds");
    audited(&mut h.audit, &f);
}

#[test]
fn zero_size_frame_rejected() {
    let mut h = host(r#"{"granted":["screen.capture"]}"#);
    let zero = RawFrame { monitor_id: "m0".into(), source_width: 0, source_height: 0, rgba: vec![] };
    let f = h.capture("{}", zero);
    assert_eq!(f.reply.status, 400);
    audited(&mut h.audit, &f);
}

#[test]
fn oversized_body_rejected() {
    match guard("/v1/keyboard/type", Some("Bearer test-token"), Some(70 * 1024), TOKEN, "rid") {
        GuardDecision::Refuse(f) => {
            assert_eq!(f.reply.status, 413);
            assert_eq!(f.audit.reason, "body_too_large");
            assert_eq!(f.audit.params["content_length"], 70 * 1024);
        }
        GuardDecision::Pass => panic!("must refuse"),
    }
    // A chunked body caught by the limit layer is converted too.
    let f = guard_after(413, "/v1/keyboard/type", "rid").unwrap();
    assert_eq!(f.reply.body["error"]["code"], "bad_argument");
    assert!(guard_after(200, "/v1/keyboard/type", "rid").is_none());
    assert!(matches!(
        guard("/v1/keyboard/type", Some("Bearer test-token"), Some(64 * 1024), TOKEN, "rid"),
        GuardDecision::Pass
    ));
}

#[test]
fn oob_click_and_bad_text_audited_with_rid() {
    let mut h = host(r#"{"granted":["screen.capture","mouse.click","keyboard.type"]}"#);
    let cap = h.capture("{}", fake_frame());
    let fid = cap.reply.body["frame_id"].as_str().unwrap().to_string();
    let f = h.click(obj(vec![("frame_id", fid.into()), ("x", 99999.into()), ("y", 0.into())]));
    assert_eq!(f.reply.status, 400);
    audited(&mut h.audit, &f);
    let long = "x".repeat(1025);
    let body = obj(vec![("text", long.clone().into())]);
    let f = h.type_text(&body.to_string());
    assert_eq!(f.reply.status, 400);
    let line = audited(&mut h.audit, &f);
    // The oversized text itself must not appear in the audit log.
    assert!(!line.contains(&long));
    assert_eq!(f.audit.params["text_len"], 1025);
}

#[test]
fn type_limits_and_malformed() {
    let mut h = host(r#"{"granted":["keyboard.type"]}"#);
    assert_eq!(h.type_text("not json{{{").reply.status, 400);
    assert_eq!(h.type_text(r#"{"text": "hello"}"#).reply.status, 200);
    assert_eq!(h.type_text(r#"{"text": ""}"#).reply.status, 400);
}

#[test]
fn rate_limit_triggers() {
    let mut h = host(r#"{"granted":["keyboard.type"]}"#);
    let mut limited = false;
    let mut admitted = 0;
    for _ in 0..25 {
        let f = h.type_text(r#"{"text": "hi"}"#);
        if f.reply.status == 429 {
            assert_eq!(f.reply.body["error"]["code"], "rate_limited");
            limited = true;
            break;
        }
        admitted += 1;
    }
    assert!(limited, "expected rate_limited within 25 rapid requests");
    assert_eq!(admitted, 10);
    // A second later the window has moved on.
    h.now += 1_000;
    assert_eq!(h.type_text(r#"{"text": "hi"}"#).reply.status, 200);
}

#[test]
fn capture_rate_limit_is_five_per_second() {
    let mut h = host(r#"{"granted":["screen.capture"]}"#);
    for _ in 0..5 {
        assert_eq!(h.capture("{}", fake_frame()).reply.status, 200);
    }
    assert_eq!(h.capture("{}", fake_frame()).reply.status, 429);
}

#[test]
fn capture_defaults_and_clamps_width() {
    let mut h = host(r#"{"granted":["screen.capture"]}"#);
    let f = h.capture("", fake_frame());
    assert_eq!(f.reply.body["output_width"], 800);
    assert_eq!(f.reply.body["output_height"], 600);
    assert_eq!(f.reply.scale, Some((800, 800)));
    // Base64 of a PNG file starts with the encoded PNG signature.
    assert!(f.reply.body["image_base64"].as_str().unwrap().starts_with("iVBORw0KGgo"));
    let f = h.capture(r#"{"max_width": 10}"#, fake_frame());
    assert_eq!(f.reply.body["output_width"], 320);
    assert_eq!(f.reply.body["output_height"], 240);
    assert_eq!(f.reply.body["mime"], "image/png");
    let png = f.reply.body["image_base64"].as_str().unwrap();
    assert!(png.starts_with("iVBORw0KGgo"));
    assert_eq!(f.reply.body["monitors"][0]["monitor_id"], "m0");
}

#[test]
fn capture_backend_error_is_502() {
    let mut h = host(r#"{"granted":["screen.capture"]}"#);
    let go = plan_capture(&h.caps, &mut h.capture_hits, h.now, b"{}", "rid").ok().unwrap();
    let f = render("rid", Err("x11: no display".into()), go.max_width).err().unwrap();
    assert_eq!(f.reply.status, 502);
    assert_eq!(f.reply.body["error"]["code"], "capture_failed");
    assert_eq!(f.reply.body["error"]["retryable"], true);
    assert_eq!(f.audit.reason, "x11: no display");
    let short = RawFrame { monitor_id: "m1".into(), source_width: 2, source_height: 2, rgba: vec![0; 15] };
    let f = render("rid", Ok(short), 1280).err().unwrap();
    assert_eq!(f.audit.reason, "frame data mismatch");
    assert_eq!(f.audit.params["monitor_id"], "m1");
}

#[test]
fn input_backend_failure_is_502() {
    let mut h = host(r#"{"granted":["keyboard.press"]}"#);
    let go = plan_press(&h.caps, &mut h.input_hits, h.now, br#"{"key":"a"}"#, "rid").ok().unwrap();
    let f = finish_press("rid", &go, Err("xdo failed".into()));
    assert_eq!(f.reply.status, 502);
    assert_eq!(f.reply.body["error"]["code"], "input_failed");
    assert_eq!(f.audit.decision, "deny");
}

#[test]
fn declared_length_parses_decimal_only() {
    assert_eq!(openrdc_host::server::declared_length("70000"), Some(70000));
    assert_eq!(openrdc_host::server::declared_length("+5"), Some(5));
    assert_eq!(openrdc_host::server::declared_length("18446744073709551615"), Some(u64::MAX));
    assert_eq!(openrdc_host::server::declared_length("18446744073709551616"), None);
    assert_eq!(openrdc_host::server::declared_length("12 "), None);
    assert_eq!(openrdc_host::server::declared_length("-1"), None);
}

#[test]
fn unwritten_audit_turns_reply_into_500() {
    let mut h = host(r#"{"granted":[]}"#);
    let f = h.type_text(r#"{"text":"hi"}"#);
    assert_eq!(f.reply.status, 403);
    let r = openrdc_host::server::reply_after_audit(f, false);
    assert_eq!(r.status, 500);
    assert_eq!(r.body["error"]["code"], "internal");
    assert_eq!(r.body["error"]["message"], "audit unavailable");
    assert_eq!(r.body["error"]["request_id"], "type-rid");
    let f = h.type_text(r#"{"text":"hi"}"#);
    let r = openrdc_host::server::reply_after_audit(f, true);
    assert_eq!(r.status, 403);
}

#[test]
fn capture_lists_no_monitors_when_backend_cannot() {
    let mut h = host(r#"{"granted":["screen.capture"]}"#);
    let go = plan_capture(&h.caps, &mut h.capture_hits, h.now, b"", "rid").ok().unwrap();
    let r = render("rid", Ok(fake_frame()), go.max_width).ok().unwrap();
    let f = finish_capture("rid", r, Err("x11: gone".into()), &mut h.frames, h.now);
    assert_eq!(f.reply.status, 200);
    assert_eq!(f.reply.body["monitors"], serde_json::Value::Array(vec![]));
    assert_eq!(f.reply.scale, Some((800, 800)));
    // Base64 of a PNG file starts with the encoded PNG signature.
    assert!(f.reply.body["image_base64"].as_str().unwrap().starts_with("iVBORw0KGgo"));
}

#[test]
fn capture_size_follows_the_floating_point_scale() {
    // 1280x720 at width 328: 720 * fl(328 / 1280) is just below 184.5.
    let frame = RawFrame { monitor_id: "m0".into(), source_width: 1280, source_height: 720, rgba: vec![7; 1280 * 720 * 4] };
    let r = render("rid", Ok(frame), 328).ok().unwrap();
    assert_eq!((r.output_width, r.output_height), (328, 184));
    assert_eq!((r.scale_num, r.scale_den), (328, 1280));
}
