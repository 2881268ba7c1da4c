//! The host's request decisions.
//!
//! Every request ends with exactly one audit record and one reply
//! (`Finish`). Each operation is decided in two steps around the single
//! backend call it may make: a plan that validates the request and the
//! caller's rights, and an outcome that turns the backend's answer into
//! the record and the reply. The caller writes the record before replying;
//! when that write fails it replies `audit_unavailable` instead.
use vstd::prelude::*;
use vstd::string::StringSliceAdditionalSpecFns;
use crate::backends::elapsed;
use crate::ratelimit::{admitted_within, held_after, rate_hit, recent};
use crate::capabilities::Capabilities;
use crate::error::{self, Reply, ReplyView, error_reply, make_object};
use crate::json::{self, JsonView, NumberView, object_of, field, field_str, field_u64, array_of, str_of, parsed_bytes};
use crate::text::{bytes_start_with, has_prefix, same_text, unsigned_text};

verus! {

/// Max HTTP request body (requests are small JSON; images flow out).
pub const MAX_BODY_BYTES: u64 = 64 * 1024;

/// What goes into the audit log for one request.
pub struct AuditEntry {
    pub request_id: String,
    pub method: String,
    pub params: serde_json::Value,
    pub decision: String,
    pub reason: String,
}

/// The end of a request: the audit record, then the reply.
pub struct Finish {
    pub audit: AuditEntry,
    pub reply: Reply,
}

pub struct FinishView {
    pub request_id: Seq<char>,
    pub method: Seq<char>,
    pub params: JsonView,
    pub decision: Seq<char>,
    pub reason: Seq<char>,
    pub reply: ReplyView,
}

impl View for Finish {
    type V = FinishView;

    open spec fn view(&self) -> FinishView {
        FinishView {
            request_id: self.audit.request_id@,
            method: self.audit.method@,
            params: json::json_view(self.audit.params),
            decision: self.audit.decision@,
            reason: self.audit.reason@,
            reply: self.reply@,
        }
    }
}

pub open spec fn obj(pairs: Seq<(Seq<char>, JsonView)>) -> JsonView {
    JsonView::Object(object_of(pairs))
}

pub open spec fn empty_obj() -> JsonView {
    obj(seq![])
}

pub open spec fn uint(n: nat) -> JsonView {
    JsonView::Number(NumberView::UInt(n as u64))
}

pub open spec fn strs(items: Seq<Seq<char>>) -> JsonView {
    JsonView::Array(items.map_values(|s: Seq<char>| JsonView::Str(s)))
}

/// A refused request: recorded as "deny" with the reason, answered with
/// `reply`.
pub open spec fn refused(
    rid: Seq<char>,
    method: Seq<char>,
    params: JsonView,
    reason: Seq<char>,
    reply: ReplyView,
) -> FinishView {
    FinishView { request_id: rid, method, params, decision: "deny"@, reason, reply }
}

/// A request that failed validation: 400 `bad_argument` with the reason.
pub open spec fn failed(
    rid: Seq<char>,
    method: Seq<char>,
    params: JsonView,
    reason: Seq<char>,
) -> FinishView {
    refused(rid, method, params, reason, error_reply(400, "bad_argument"@, reason, false, rid))
}

/// A request without the capability it needs: 403 `forbidden_capability`.
pub open spec fn denied(
    rid: Seq<char>,
    method: Seq<char>,
    params: JsonView,
    reason: Seq<char>,
) -> FinishView {
    refused(rid, method, params, reason, error_reply(403, "forbidden_capability"@, reason, false, rid))
}

/// A request over its rate: 429 `rate_limited`, retryable.
pub open spec fn limited(rid: Seq<char>, method: Seq<char>, params: JsonView) -> FinishView {
    refused(
        rid,
        method,
        params,
        "rate_limited"@,
        error_reply(429, "rate_limited"@, "slow down"@, true, rid),
    )
}

/// A performed request: recorded as "allow" / "ok".
pub open spec fn allowed(rid: Seq<char>, method: Seq<char>, params: JsonView, reply: ReplyView) -> FinishView {
    FinishView { request_id: rid, method, params, decision: "allow"@, reason: "ok"@, reply }
}

pub open spec fn ok_reply() -> ReplyView {
    ReplyView { status: 200, body: obj(seq![("ok"@, JsonView::Bool(true))]), scale: None }
}

/// Length of a text in UTF-8 bytes.
pub open spec fn byte_len(s: Seq<char>) -> nat {
    vstd::utf8::encode_utf8(s).len()
}

// ---------------------------------------------------------------------------
// Building the pieces.

fn new_object() -> (r: serde_json::Value)
    ensures
        json::json_view(r) == empty_obj(),
{
    let pairs: Vec<(String, serde_json::Value)> = Vec::new();
    proof {
        assert(pairs@.map_values(|p: (String, serde_json::Value)| p.0@) =~= seq![]);
        assert(pairs@.map_values(|p: (String, serde_json::Value)| (p.0@, json::json_view(p.1)))
            =~= seq![]);
    }
    make_object(pairs)
}

fn object1(k: &str, v: serde_json::Value) -> (r: serde_json::Value)
    ensures
        json::json_view(r) == obj(seq![(k@, json::json_view(v))]),
{
    let ghost vv = json::json_view(v);
    let pairs: Vec<(String, serde_json::Value)> = vec![(k.to_owned(), v)];
    proof {
        assert(pairs@.map_values(|p: (String, serde_json::Value)| p.0@) =~= seq![k@]);
        assert(pairs@.map_values(|p: (String, serde_json::Value)| (p.0@, json::json_view(p.1)))
            =~= seq![(k@, vv)]);
    }
    make_object(pairs)
}

fn object2(k1: &str, v1: serde_json::Value, k2: &str, v2: serde_json::Value) -> (r:
    serde_json::Value)
    requires
        k1@ != k2@,
    ensures
        json::json_view(r) == obj(seq![(k1@, json::json_view(v1)), (k2@, json::json_view(v2))]),
{
    let ghost w1 = json::json_view(v1);
    let ghost w2 = json::json_view(v2);
    let pairs: Vec<(String, serde_json::Value)> = vec![(k1.to_owned(), v1), (k2.to_owned(), v2)];
    proof {
        let keys = pairs@.map_values(|p: (String, serde_json::Value)| p.0@);
        assert(keys =~= seq![k1@, k2@]);
        assert(json::keys_distinct(keys));
        assert(pairs@.map_values(|p: (String, serde_json::Value)| (p.0@, json::json_view(p.1)))
            =~= seq![(k1@, w1), (k2@, w2)]);
    }
    make_object(pairs)
}

fn object3(
    k1: &str,
    v1: serde_json::Value,
    k2: &str,
    v2: serde_json::Value,
    k3: &str,
    v3: serde_json::Value,
) -> (r: serde_json::Value)
    requires
        k1@ != k2@,
        k1@ != k3@,
        k2@ != k3@,
    ensures
        json::json_view(r) == obj(
            seq![
                (k1@, json::json_view(v1)),
                (k2@, json::json_view(v2)),
                (k3@, json::json_view(v3)),
            ],
        ),
{
    let ghost w1 = json::json_view(v1);
    let ghost w2 = json::json_view(v2);
    let ghost w3 = json::json_view(v3);
    let pairs: Vec<(String, serde_json::Value)> = vec![
        (k1.to_owned(), v1),
        (k2.to_owned(), v2),
        (k3.to_owned(), v3),
    ];
    proof {
        let keys = pairs@.map_values(|p: (String, serde_json::Value)| p.0@);
        assert(keys =~= seq![k1@, k2@, k3@]);
        assert(json::keys_distinct(keys));
        assert(pairs@.map_values(|p: (String, serde_json::Value)| (p.0@, json::json_view(p.1)))
            =~= seq![(k1@, w1), (k2@, w2), (k3@, w3)]);
    }
    make_object(pairs)
}

fn string_array(items: &Vec<String>) -> (r: serde_json::Value)
    ensures
        json::json_view(r) == strs(items@.map_values(|s: String| s@)),
{
    let mut vs: Vec<serde_json::Value> = Vec::new();
    let mut i: usize = 0;
    while i < items.len()
        invariant
            i <= items@.len(),
            vs@.len() == i,
            forall|j: int| 0 <= j < i ==> json::json_view(#[trigger] vs@[j]) == JsonView::Str(items@[j]@),
        decreases items@.len() - i,
    {
        vs.push(json::string(items[i].as_str()));
        i = i + 1;
    }
    proof {
        assert(json::views_of(vs@) =~= items@.map_values(|s: String| s@).map_values(
            |s: Seq<char>| JsonView::Str(s),
        ));
    }
    json::array(vs)
}

fn ok_body() -> (r: Reply)
    ensures
        r@ == ok_reply(),
{
    Reply { status: 200, body: object1("ok", json::boolean(true)), scale: None }
}

fn refuse(rid: &str, method: &str, params: serde_json::Value, reason: &str, reply: Reply) -> (r:
    Finish)
    ensures
        r@ == refused(rid@, method@, json::json_view(params), reason@, reply@),
{
    Finish {
        audit: AuditEntry {
            request_id: rid.to_owned(),
            method: method.to_owned(),
            params,
            decision: "deny".to_owned(),
            reason: reason.to_owned(),
        },
        reply,
    }
}

/// Validation failure on a privileged route: audited, 400.
fn fail(rid: &str, method: &str, params: serde_json::Value, reason: &str) -> (r: Finish)
    ensures
        r@ == failed(rid@, method@, json::json_view(params), reason@),
{
    let reply = error::err(400, "bad_argument", reason, false, rid);
    refuse(rid, method, params, reason, reply)
}

/// Missing capability: audited, 403.
fn deny(rid: &str, method: &str, params: serde_json::Value, reason: &str) -> (r: Finish)
    ensures
        r@ == denied(rid@, method@, json::json_view(params), reason@),
{
    let reply = error::err(403, "forbidden_capability", reason, false, rid);
    refuse(rid, method, params, reason, reply)
}

fn rate_limited(rid: &str, method: &str, params: serde_json::Value) -> (r: Finish)
    ensures
        r@ == limited(rid@, method@, json::json_view(params)),
{
    let reply = error::err(429, "rate_limited", "slow down", true, rid);
    refuse(rid, method, params, "rate_limited", reply)
}

fn allow(rid: &str, method: &str, params: serde_json::Value, reply: Reply) -> (r: Finish)
    ensures
        r@ == allowed(rid@, method@, json::json_view(params), reply@),
{
    Finish {
        audit: AuditEntry {
            request_id: rid.to_owned(),
            method: method.to_owned(),
            params,
            decision: "allow".to_owned(),
            reason: "ok".to_owned(),
        },
        reply,
    }
}

/// The reply to send once the request's audit record was written, or was
/// not: the request's own reply, or 500 `audit unavailable` with the same
/// request id.
pub fn reply_after_audit(f: Finish, written: bool) -> (r: Reply)
    ensures
        written ==> r@ == f@.reply,
        !written ==> r@ == error_reply(500, "internal"@, "audit unavailable"@, false, f@.request_id),
{
    if written {
        f.reply
    } else {
        audit_unavailable(f.audit.request_id.as_str())
    }
}

/// The reply when the audit record could not be written: 500, same
/// request id.
pub fn audit_unavailable(rid: &str) -> (r: Reply)
    ensures
        r@ == error_reply(500, "internal"@, "audit unavailable"@, false, rid@),
{
    error::err(500, "internal", "audit unavailable", false, rid)
}


// ---------------------------------------------------------------------------
// Authentication and body size.

pub enum GuardDecision {
    /// Hand the request on.
    Pass,
    /// Refuse it.
    Refuse(Finish),
}

/// The request is answered without authentication.
pub open spec fn is_public(path: Seq<char>) -> bool {
    path == "/health"@
}

/// What the guard decides before a request is routed: `/health` passes;
/// any other path needs `authorization: Bearer <token>` exactly (401
/// otherwise, audited as method "auth"), and a declared body size no larger
/// than `MAX_BODY_BYTES` (413 otherwise, audited under the path).
pub open spec fn guard_spec(
    path: Seq<char>,
    authorization: Option<Seq<char>>,
    content_length: Option<u64>,
    token: Seq<char>,
    rid: Seq<char>,
) -> Option<FinishView> {
    if is_public(path) {
        None
    } else if authorization != Some("Bearer "@ + token) {
        Some(
            refused(
                rid,
                "auth"@,
                empty_obj(),
                "unauthorized"@,
                error_reply(401, "unauthorized"@, "bad or missing token"@, false, rid),
            ),
        )
    } else if content_length matches Some(len) && len > MAX_BODY_BYTES {
        Some(
            refused(
                rid,
                path,
                obj(seq![("content_length"@, uint(content_length.unwrap() as nat))]),
                "body_too_large"@,
                error_reply(413, "bad_argument"@, "body too large"@, false, rid),
            ),
        )
    } else {
        None
    }
}

/// Decides whether a request may reach its handler (see `guard_spec`).
/// `authorization` is the header's text, if it is present and visible
/// ASCII; `content_length` the declared length, if it parses.
pub fn guard(
    path: &str,
    authorization: Option<&str>,
    content_length: Option<u64>,
    token: &str,
    rid: &str,
) -> (r: GuardDecision)
    ensures
        match guard_spec(path@, option_text(authorization), content_length, token@, rid@) {
            None => r is Pass,
            Some(f) => r matches GuardDecision::Refuse(g) && g@ == f,
        },
{
    if same_text(path, "/health") {
        return GuardDecision::Pass;
    }
    let mut expected = "Bearer ".to_owned();
    expected.append(token);
    let ok = match authorization {
        Some(h) => same_text(h, expected.as_str()),
        None => false,
    };
    if !ok {
        let reply = error::err(401, "unauthorized", "bad or missing token", false, rid);
        return GuardDecision::Refuse(refuse(rid, "auth", new_object(), "unauthorized", reply));
    }
    if let Some(len) = content_length {
        if len > MAX_BODY_BYTES {
            let reply = error::err(413, "bad_argument", "body too large", false, rid);
            let params = object1("content_length", json::uint(len));
            return GuardDecision::Refuse(refuse(rid, path, params, "body_too_large", reply));
        }
    }
    GuardDecision::Pass
}

/// `str::parse::<u64>`. Claims: the value `unsigned_text` describes, as
/// the documentation of `u64::from_str_radix` states it for base 10.
#[verifier::external_body]
fn parse_u64(s: &str) -> (r: Option<u64>)
    ensures
        r == match unsigned_text(s@, 0xffff_ffff_ffff_ffff) {
            Some(n) => Some(n as u64),
            None => None,
        },
{
    s.parse::<u64>().ok()
}

/// The body length a `content-length` header declares, if its text is a
/// number.
pub fn declared_length(header: &str) -> (r: Option<u64>)
    ensures
        r == match unsigned_text(header@, 0xffff_ffff_ffff_ffff) {
            Some(n) => Some(n as u64),
            None => None,
        },
{
    parse_u64(header)
}

pub open spec fn option_text(s: Option<&str>) -> Option<Seq<char>> {
    match s {
        Some(t) => Some(t@),
        None => None,
    }
}

/// After the handler: a bare 413 from the body-limit layer (a chunked or
/// undeclared body that was too large) becomes the audited envelope.
pub fn guard_after(status: u16, path: &str, rid: &str) -> (r: Option<Finish>)
    ensures
        status != 413 ==> r is None,
        status == 413 ==> (r matches Some(f) && f@ == refused(
            rid@,
            path@,
            empty_obj(),
            "body_too_large"@,
            error_reply(413, "bad_argument"@, "body too large"@, false, rid@),
        )),
{
    if status == 413 {
        let reply = error::err(413, "bad_argument", "body too large", false, rid);
        Some(refuse(rid, path, new_object(), "body_too_large", reply))
    } else {
        None
    }
}

// ---------------------------------------------------------------------------
// keyboard.press

/// A modifier-bearing press requires `keyboard.press.dangerous`; keys
/// without modifiers need only `keyboard.press`.
pub fn needs_dangerous(mods: &Vec<String>) -> (r: bool)
    ensures
        r == (mods@.len() > 0),
{
    mods.len() > 0
}

pub open spec fn is_modifier(s: Seq<char>) -> bool {
    s == "ctrl"@ || s == "shift"@ || s == "alt"@
}

pub open spec fn modifier_item(item: JsonView) -> Result<Seq<char>, Seq<char>> {
    match str_of(item) {
        Some(s) => if is_modifier(s) {
            Ok(s)
        } else {
            Err("bad modifier"@)
        },
        None => Err("modifiers must be strings"@),
    }
}

/// The modifiers of the items, or the error of the first bad item.
pub open spec fn modifier_items(items: Seq<JsonView>) -> Result<Seq<Seq<char>>, Seq<char>>
    decreases items.len(),
{
    if items.len() == 0 {
        Ok(seq![])
    } else {
        match modifier_items(items.drop_last()) {
            Err(e) => Err(e),
            Ok(ms) => match modifier_item(items.last()) {
                Ok(m) => Ok(ms.push(m)),
                Err(e) => Err(e),
            },
        }
    }
}

/// Strict modifier parsing: the field is absent (no modifiers) or an array
/// of "ctrl" / "shift" / "alt"; anything else is an error.
pub open spec fn modifiers_of(v: JsonView) -> Result<Seq<Seq<char>>, Seq<char>> {
    match field(v, "modifiers"@) {
        None => Ok(seq![]),
        Some(m) => match array_of(m) {
            None => Err("modifiers must be an array"@),
            Some(items) => modifier_items(items),
        },
    }
}

fn parse_modifiers(v: &serde_json::Value) -> (r: Result<Vec<String>, &'static str>)
    ensures
        match modifiers_of(json::json_view(*v)) {
            Ok(ms) => r matches Ok(rs) && rs@.map_values(|s: String| s@) == ms,
            Err(e) => r matches Err(re) && re@ == e,
        },
{
    let arr = match json::get(v, "modifiers") {
        None => {
            let r: Vec<String> = Vec::new();
            proof {
                assert(r@.map_values(|s: String| s@) =~= seq![]);
            }
            return Ok(r);
        },
        Some(m) => match json::as_array(m) {
            None => return Err("modifiers must be an array"),
            Some(a) => a,
        },
    };
    let ghost items = json::views_of(arr@);
    let mut out: Vec<String> = Vec::new();
    let mut i: usize = 0;
    proof {
        assert(items.take(0) =~= seq![]);
        assert(out@.map_values(|s: String| s@) =~= seq![]);
        assert(modifiers_of(json::json_view(*v)) == modifier_items(items));
    }
    while i < arr.len()
        invariant
            items == json::views_of(arr@),
            modifiers_of(json::json_view(*v)) == modifier_items(items),
            i <= arr@.len(),
            modifier_items(items.take(i as int)) == Ok::<Seq<Seq<char>>, Seq<char>>(
                out@.map_values(|s: String| s@),
            ),
        decreases arr@.len() - i,
    {
        proof {
            assert(items.take(i + 1).drop_last() =~= items.take(i as int));
            assert(items.take(i + 1).last() == json::json_view(arr@[i as int]));
        }
        match json::as_str(&arr[i]) {
            Some(s) => {
                if same_text(s, "ctrl") || same_text(s, "shift") || same_text(s, "alt") {
                    out.push(s.to_owned());
                    proof {
                        assert(Ok::<Seq<Seq<char>>, Seq<char>>(out@.map_values(|s: String| s@))
                            == modifier_items(items.take(i + 1))) by {
                            assert(out@.map_values(|s: String| s@) =~= modifier_items(
                                items.take(i as int),
                            )->Ok_0.push(s@));
                        }
                    }
                } else {
                    proof {
                        assert(modifier_item(items[i as int]) == Err::<Seq<char>, Seq<char>>(
                            "bad modifier"@,
                        ));
                        assert(modifier_items(items.take(i + 1)) == Err::<Seq<Seq<char>>, Seq<char>>(
                            "bad modifier"@,
                        ));
                        lemma_modifier_items_prefix_err(items, (i + 1) as nat, "bad modifier"@);
                    }
                    return Err("bad modifier");
                }
            },
            None => {
                proof {
                    assert(modifier_items(items.take(i + 1)) == Err::<Seq<Seq<char>>, Seq<char>>(
                        "modifiers must be strings"@,
                    ));
                    lemma_modifier_items_prefix_err(items, (i + 1) as nat, "modifiers must be strings"@);
                }
                return Err("modifiers must be strings");
            },
        }
        i = i + 1;
    }
    proof {
        assert(items.take(arr@.len() as int) =~= items);
    }
    Ok(out)
}

/// Once a prefix fails, the whole sequence fails with the same error.
proof fn lemma_modifier_items_prefix_err(items: Seq<JsonView>, n: nat, e: Seq<char>)
    requires
        n <= items.len(),
        modifier_items(items.take(n as int)) == Err::<Seq<Seq<char>>, Seq<char>>(e),
    ensures
        modifier_items(items) == Err::<Seq<Seq<char>>, Seq<char>>(e),
    decreases items.len() - n,
{
    if n < items.len() {
        assert(items.take(n as int + 1).drop_last() =~= items.take(n as int));
        lemma_modifier_items_prefix_err(items, n + 1, e);
    } else {
        assert(items.take(n as int) =~= items);
    }
}

/// The audit parameters of a press: the key and its modifiers.
pub open spec fn key_mods(key: Seq<char>, mods: Seq<Seq<char>>) -> JsonView {
    obj(seq![("key"@, JsonView::Str(key)), ("modifiers"@, strs(mods))])
}

pub open spec fn key_only(key: Seq<char>) -> JsonView {
    obj(seq![("key"@, JsonView::Str(key))])
}

/// How a press request is decided before any rate limit.
pub enum Check<T> {
    /// Bad request: 400 with these audit parameters and reason.
    Fail(JsonView, Seq<char>),
    /// Missing capability: 403 with these audit parameters and reason.
    Deny(JsonView, Seq<char>),
    /// Acceptable; the rate limit decides.
    Go(T),
}

pub open spec fn approval_present(v: JsonView) -> bool {
    field(v, "approval_id"@) is Some
}

pub open spec fn press_check(granted: Set<Seq<char>>, body: Seq<u8>) -> Check<(Seq<char>, Seq<Seq<char>>)> {
    match parsed_bytes(body) {
        None => Check::Fail(empty_obj(), "malformed JSON"@),
        Some(v) => if approval_present(v) {
            Check::Fail(empty_obj(), "approval_id not accepted in M0"@)
        } else {
            match field_str(v, "key"@) {
                None => Check::Fail(empty_obj(), "need key"@),
                Some(k) => if byte_len(k) > 32 {
                    Check::Fail(key_only(k), "bad key"@)
                } else {
                    match modifiers_of(v) {
                        Err(reason) => Check::Fail(key_only(k), reason),
                        Ok(ms) => if !granted.contains("keyboard.press"@) {
                            Check::Deny(key_mods(k, ms), "capability not granted"@)
                        } else if ms.len() > 0 && !granted.contains("keyboard.press.dangerous"@) {
                            Check::Deny(key_mods(k, ms), "modifiers need keyboard.press.dangerous"@)
                        } else {
                            Check::Go((k, ms))
                        },
                    }
                },
            }
        },
    }
}

/// The input side of an accepted plan: at most `max` hits per window.
pub open spec fn admits(hits: Seq<u64>, now: u64, max: nat, window_ms: u64) -> bool {
    recent(hits, now, window_ms).len() < max
}

pub open spec fn hits_after(hits: Seq<u64>, now: u64, max: nat, window_ms: u64) -> Seq<u64> {
    if admits(hits, now, max, window_ms) {
        recent(hits, now, window_ms).push(now)
    } else {
        recent(hits, now, window_ms)
    }
}

/// An accepted key press.
pub struct PressGo {
    pub key: String,
    pub modifiers: Vec<String>,
}

impl View for PressGo {
    type V = (Seq<char>, Seq<Seq<char>>);

    open spec fn view(&self) -> (Seq<char>, Seq<Seq<char>>) {
        (self.key@, self.modifiers@.map_values(|s: String| s@))
    }
}

proof fn lemma_key_mods_keys()
    ensures
        "key"@ != "modifiers"@,
{
    reveal_strlit("key");
    reveal_strlit("modifiers");
    assert("key"@.len() != "modifiers"@.len());
}

fn key_mods_params(key: &str, mods: &Vec<String>) -> (r: serde_json::Value)
    ensures
        json::json_view(r) == key_mods(key@, mods@.map_values(|s: String| s@)),
{
    proof {
        lemma_key_mods_keys();
    }
    object2("key", json::string(key), "modifiers", string_array(mods))
}

/// Validates a `keyboard.press` request (see `press_check`), then applies
/// the input rate limit (10 per second). On success the press may be sent
/// to the input backend.
pub fn plan_press(
    caps: &Capabilities,
    hits: &mut Vec<u64>,
    now: u64,
    body: &[u8],
    rid: &str,
) -> (r: Result<PressGo, Finish>)
    ensures
        match press_check(caps@, body@) {
            Check::Fail(p, reason) => final(hits)@ == old(hits)@ && (r matches Err(f) && f@
                == failed(rid@, "keyboard.press"@, p, reason)),
            Check::Deny(p, reason) => final(hits)@ == old(hits)@ && (r matches Err(f) && f@
                == denied(rid@, "keyboard.press"@, p, reason)),
            Check::Go((k, ms)) => final(hits)@ == hits_after(old(hits)@, now, 10, 1000) && if admits(
                old(hits)@,
                now,
                10,
                1000,
            ) {
                r matches Ok(g) && g@ == (k, ms)
            } else {
                r matches Err(f) && f@ == limited(rid@, "keyboard.press"@, key_mods(k, ms))
            },
        },
{
    let method = "keyboard.press";
    let v = match json::parse_bytes(body) {
        Some(v) => v,
        None => return Err(fail(rid, method, new_object(), "malformed JSON")),
    };
    if json::get(&v, "approval_id").is_some() {
        return Err(fail(rid, method, new_object(), "approval_id not accepted in M0"));
    }
    let key = match json::get(&v, "key") {
        Some(x) => match json::as_str(x) {
            Some(k) => k,
            None => return Err(fail(rid, method, new_object(), "need key")),
        },
        None => return Err(fail(rid, method, new_object(), "need key")),
    };
    if key.as_bytes().len() > 32 {
        return Err(fail(rid, method, object1("key", json::string(key)), "bad key"));
    }
    let mods = match parse_modifiers(&v) {
        Ok(m) => m,
        Err(reason) => {
            return Err(fail(rid, method, object1("key", json::string(key)), reason));
        },
    };
    if !caps.allows("keyboard.press") {
        return Err(deny(rid, method, key_mods_params(key, &mods), "capability not granted"));
    }
    if needs_dangerous(&mods) && !caps.allows("keyboard.press.dangerous") {
        return Err(
            deny(rid, method, key_mods_params(key, &mods), "modifiers need keyboard.press.dangerous"),
        );
    }
    if !rate_hit(hits, now, 10, 1000) {
        return Err(rate_limited(rid, method, key_mods_params(key, &mods)));
    }
    Ok(PressGo { key: key.to_owned(), modifiers: mods })
}

/// The end of a `keyboard.press` request once the backend has answered: an
/// "unknown key" error is the caller's mistake (400), any other error a
/// backend failure (502).
pub open spec fn press_outcome(
    rid: Seq<char>,
    key: Seq<char>,
    mods: Seq<Seq<char>>,
    result: Result<(), Seq<char>>,
) -> FinishView {
    let p = key_mods(key, mods);
    match result {
        Ok(()) => allowed(rid, "keyboard.press"@, p, ok_reply()),
        Err(e) => if bytes_start_with(e, "unknown key"@) {
            failed(rid, "keyboard.press"@, p, "unknown key"@)
        } else {
            refused(rid, "keyboard.press"@, p, e, error_reply(502, "input_failed"@, e, false, rid))
        },
    }
}

pub open spec fn result_text(r: Result<(), String>) -> Result<(), Seq<char>> {
    match r {
        Ok(()) => Ok(()),
        Err(e) => Err(e@),
    }
}

/// Records the backend's answer to a press (see `press_outcome`).
pub fn finish_press(rid: &str, go: &PressGo, result: Result<(), String>) -> (r: Finish)
    ensures
        r@ == press_outcome(rid@, go@.0, go@.1, result_text(result)),
{
    let params = key_mods_params(go.key.as_str(), &go.modifiers);
    match result {
        Ok(()) => allow(rid, "keyboard.press", params, ok_body()),
        Err(e) => {
            if has_prefix(e.as_str(), "unknown key") {
                fail(rid, "keyboard.press", params, "unknown key")
            } else {
                let reply = error::err(502, "input_failed", e.as_str(), false, rid);
                refuse(rid, "keyboard.press", params, e.as_str(), reply)
            }
        },
    }
}

// ---------------------------------------------------------------------------
// keyboard.type

pub open spec fn text_len(t: Seq<char>) -> JsonView {
    obj(seq![("text_len"@, uint(byte_len(t)))])
}

pub open spec fn type_check(granted: Set<Seq<char>>, body: Seq<u8>) -> Check<Seq<char>> {
    match parsed_bytes(body) {
        None => Check::Fail(empty_obj(), "malformed JSON"@),
        Some(v) => if approval_present(v) {
            Check::Fail(empty_obj(), "approval_id not accepted in M0"@)
        } else {
            match field_str(v, "text"@) {
                None => Check::Fail(empty_obj(), "need text"@),
                Some(t) => if byte_len(t) == 0 || byte_len(t) > 1024 {
                    Check::Fail(text_len(t), "text must be 1..1024 chars"@)
                } else if !granted.contains("keyboard.type"@) {
                    Check::Deny(text_len(t), "capability not granted"@)
                } else {
                    Check::Go(t)
                },
            }
        },
    }
}

/// Accepted text to type.
pub struct TypeGo {
    pub text: String,
}

fn text_len_params(text: &str) -> (r: serde_json::Value)
    ensures
        json::json_view(r) == text_len(text@),
{
    object1("text_len", json::uint(text.as_bytes().len() as u64))
}

/// Validates a `keyboard.type` request (see `type_check`), then applies the
/// input rate limit (10 per second). Text content is never logged, only
/// its length.
pub fn plan_type(
    caps: &Capabilities,
    hits: &mut Vec<u64>,
    now: u64,
    body: &[u8],
    rid: &str,
) -> (r: Result<TypeGo, Finish>)
    ensures
        match type_check(caps@, body@) {
            Check::Fail(p, reason) => final(hits)@ == old(hits)@ && (r matches Err(f) && f@
                == failed(rid@, "keyboard.type"@, p, reason)),
            Check::Deny(p, reason) => final(hits)@ == old(hits)@ && (r matches Err(f) && f@
                == denied(rid@, "keyboard.type"@, p, reason)),
            Check::Go(t) => final(hits)@ == hits_after(old(hits)@, now, 10, 1000) && if admits(
                old(hits)@,
                now,
                10,
                1000,
            ) {
                r matches Ok(g) && g.text@ == t
            } else {
                r matches Err(f) && f@ == limited(rid@, "keyboard.type"@, text_len(t))
            },
        },
{
    let method = "keyboard.type";
    let v = match json::parse_bytes(body) {
        Some(v) => v,
        None => return Err(fail(rid, method, new_object(), "malformed JSON")),
    };
    if json::get(&v, "approval_id").is_some() {
        return Err(fail(rid, method, new_object(), "approval_id not accepted in M0"));
    }
    let text = match json::get(&v, "text") {
        Some(x) => match json::as_str(x) {
            Some(t) => t,
            None => return Err(fail(rid, method, new_object(), "need text")),
        },
        None => return Err(fail(rid, method, new_object(), "need text")),
    };
    let n = text.as_bytes().len();
    if n == 0 || n > 1024 {
        return Err(fail(rid, method, text_len_params(text), "text must be 1..1024 chars"));
    }
    if !caps.allows("keyboard.type") {
        return Err(deny(rid, method, text_len_params(text), "capability not granted"));
    }
    if !rate_hit(hits, now, 10, 1000) {
        return Err(rate_limited(rid, method, text_len_params(text)));
    }
    Ok(TypeGo { text: text.to_owned() })
}

pub open spec fn backend_failure(
    rid: Seq<char>,
    method: Seq<char>,
    params: JsonView,
    code: Seq<char>,
    e: Seq<char>,
    retryable: bool,
) -> FinishView {
    refused(rid, method, params, e, error_reply(502, code, e, retryable, rid))
}

/// The end of a `keyboard.type` request once the backend has answered.
pub open spec fn type_outcome(rid: Seq<char>, text: Seq<char>, result: Result<(), Seq<char>>) -> FinishView {
    match result {
        Ok(()) => allowed(rid, "keyboard.type"@, text_len(text), ok_reply()),
        Err(e) => backend_failure(rid, "keyboard.type"@, text_len(text), "input_failed"@, e, false),
    }
}

/// Records the backend's answer to a typing request (see `type_outcome`).
pub fn finish_type(rid: &str, go: &TypeGo, result: Result<(), String>) -> (r: Finish)
    ensures
        r@ == type_outcome(rid@, go.text@, result_text(result)),
{
    let params = text_len_params(go.text.as_str());
    match result {
        Ok(()) => allow(rid, "keyboard.type", params, ok_body()),
        Err(e) => {
            let reply = error::err(502, "input_failed", e.as_str(), false, rid);
            refuse(rid, "keyboard.type", params, e.as_str(), reply)
        },
    }
}

// ---------------------------------------------------------------------------
// mouse.click

pub open spec fn frame_only(fid: Seq<char>) -> JsonView {
    obj(seq![("frame_id"@, JsonView::Str(fid))])
}

pub open spec fn click_at(fid: Seq<char>, x: u64, y: u64) -> JsonView {
    obj(seq![("frame_id"@, JsonView::Str(fid)), ("x"@, uint(x as nat)), ("y"@, uint(y as nat))])
}

pub open spec fn click_native(fid: Seq<char>, x: u64, y: u64, nx: u32, ny: u32) -> JsonView {
    obj(
        seq![
            ("frame_id"@, JsonView::Str(fid)),
            ("x"@, uint(x as nat)),
            ("y"@, uint(y as nat)),
            ("native"@, JsonView::Array(seq![uint(nx as nat), uint(ny as nat)])),
        ],
    )
}

pub open spec fn is_button(b: Seq<char>) -> bool {
    b == "left"@ || b == "right"@ || b == "middle"@
}

/// The checks of a click that precede the rate limit: frame id, x and y
/// (each at most `u32::MAX`), button (default "left"), capability.
pub open spec fn click_check(granted: Set<Seq<char>>, body: Seq<u8>) -> Check<
    (Seq<char>, u64, u64, Seq<char>),
> {
    match parsed_bytes(body) {
        None => Check::Fail(empty_obj(), "malformed JSON"@),
        Some(v) => if approval_present(v) {
            Check::Fail(empty_obj(), "approval_id not accepted in M0"@)
        } else {
            match (field_str(v, "frame_id"@), field_u64(v, "x"@), field_u64(v, "y"@)) {
                (Some(fid), Some(x), Some(y)) => {
                    let button = match field_str(v, "button"@) {
                        Some(b) => b,
                        None => "left"@,
                    };
                    if x > u32::MAX || y > u32::MAX {
                        Check::Fail(frame_only(fid), "out of bounds"@)
                    } else if !is_button(button) {
                        Check::Fail(frame_only(fid), "bad button"@)
                    } else if !granted.contains("mouse.click"@) {
                        Check::Deny(frame_only(fid), "capability not granted"@)
                    } else {
                        Check::Go((fid, x, y, button))
                    }
                },
                _ => Check::Fail(empty_obj(), "need frame_id, x, y"@),
            }
        },
    }
}

/// A click whose request, rights, rate and frame have been checked: the
/// point still has to be mapped to native coordinates.
pub struct ClickTarget {
    pub frame_id: String,
    pub x: u64,
    pub y: u64,
    pub button: String,
    pub frame: crate::backends::FrameMeta,
}

/// An accepted click, in native coordinates.
pub struct ClickGo {
    pub frame_id: String,
    pub x: u64,
    pub y: u64,
    pub native_x: u32,
    pub native_y: u32,
    pub button: String,
}

pub open spec fn stale_frame(rid: Seq<char>, fid: Seq<char>) -> FinishView {
    refused(
        rid,
        "mouse.click"@,
        frame_only(fid),
        "stale_frame"@,
        error_reply(410, "stale_frame"@, "re-capture first"@, true, rid),
    )
}

proof fn lemma_click_keys()
    ensures
        "frame_id"@ != "x"@,
        "frame_id"@ != "y"@,
        "frame_id"@ != "native"@,
        "x"@ != "y"@,
        "x"@ != "native"@,
        "y"@ != "native"@,
{
    reveal_strlit("frame_id");
    reveal_strlit("x");
    reveal_strlit("y");
    reveal_strlit("native");
    assert("x"@[0] != "y"@[0]);
    assert("frame_id"@[0] != "native"@[0]);
}

fn click_at_params(fid: &str, x: u64, y: u64) -> (r: serde_json::Value)
    ensures
        json::json_view(r) == click_at(fid@, x, y),
{
    proof {
        lemma_click_keys();
    }
    object3("frame_id", json::string(fid), "x", json::uint(x), "y", json::uint(y))
}

fn click_native_params(fid: &str, x: u64, y: u64, nx: u32, ny: u32) -> (r: serde_json::Value)
    ensures
        json::json_view(r) == click_native(fid@, x, y, nx, ny),
{
    proof {
        lemma_click_keys();
    }
    let items = vec![json::uint(nx as u64), json::uint(ny as u64)];
    proof {
        assert(json::views_of(items@) =~= seq![uint(nx as nat), uint(ny as nat)]);
    }
    let native = json::array(items);
    let ghost nv = json::json_view(native);
    let pairs: Vec<(String, serde_json::Value)> = vec![
        ("frame_id".to_owned(), json::string(fid)),
        ("x".to_owned(), json::uint(x)),
        ("y".to_owned(), json::uint(y)),
        ("native".to_owned(), native),
    ];
    proof {
        let keys = pairs@.map_values(|p: (String, serde_json::Value)| p.0@);
        assert(keys =~= seq!["frame_id"@, "x"@, "y"@, "native"@]);
        assert(json::keys_distinct(keys));
        assert(pairs@.map_values(|p: (String, serde_json::Value)| (p.0@, json::json_view(p.1)))
            =~= seq![
            ("frame_id"@, JsonView::Str(fid@)),
            ("x"@, uint(x as nat)),
            ("y"@, uint(y as nat)),
            ("native"@, nv),
        ]);
    }
    make_object(pairs)
}

/// Validates a `mouse.click` request (see `click_check`), applies the input
/// rate limit (10 per second) and looks the frame up (410 `stale_frame`
/// when unknown or expired). The point is then mapped with `locate_click`.
pub fn plan_click(
    caps: &Capabilities,
    hits: &mut Vec<u64>,
    frames: &mut crate::backends::FrameStore,
    now: u64,
    body: &[u8],
    rid: &str,
) -> (r: Result<ClickTarget, Finish>)
    ensures
        match click_check(caps@, body@) {
            Check::Fail(p, reason) => final(hits)@ == old(hits)@ && final(frames)@ == old(frames)@
                && (r matches Err(f) && f@ == failed(rid@, "mouse.click"@, p, reason)),
            Check::Deny(p, reason) => final(hits)@ == old(hits)@ && final(frames)@ == old(frames)@
                && (r matches Err(f) && f@ == denied(rid@, "mouse.click"@, p, reason)),
            Check::Go((fid, x, y, button)) => final(hits)@ == hits_after(old(hits)@, now, 10, 1000)
                && if !admits(old(hits)@, now, 10, 1000) {
                final(frames)@ == old(frames)@ && (r matches Err(f) && f@ == limited(
                    rid@,
                    "mouse.click"@,
                    frame_only(fid),
                ))
            } else if !old(frames)@.contains_key(fid) {
                final(frames)@ == old(frames)@ && (r matches Err(f) && f@ == stale_frame(rid@, fid))
            } else if elapsed(old(frames)@[fid].created, now) >= crate::backends::frame_ttl() {
                final(frames)@ == old(frames)@.remove(fid) && (r matches Err(f) && f@
                    == stale_frame(rid@, fid))
            } else {
                final(frames)@ == old(frames)@ && (r matches Ok(t) && t.frame_id@ == fid && t.x
                    == x && t.y == y && t.x <= u32::MAX && t.y <= u32::MAX && t.button@ == button
                    && t.frame@ == old(frames)@[fid])
            },
        },
{
    let method = "mouse.click";
    let v = match json::parse_bytes(body) {
        Some(v) => v,
        None => return Err(fail(rid, method, new_object(), "malformed JSON")),
    };
    if json::get(&v, "approval_id").is_some() {
        return Err(fail(rid, method, new_object(), "approval_id not accepted in M0"));
    }
    let fid = match json::get(&v, "frame_id") {
        Some(f) => json::as_str(f),
        None => None,
    };
    let x = match json::get(&v, "x") {
        Some(f) => json::as_u64(f),
        None => None,
    };
    let y = match json::get(&v, "y") {
        Some(f) => json::as_u64(f),
        None => None,
    };
    let (fid, x, y) = match (fid, x, y) {
        (Some(fid), Some(x), Some(y)) => (fid, x, y),
        _ => return Err(fail(rid, method, new_object(), "need frame_id, x, y")),
    };
    if x > 0xffff_ffff || y > 0xffff_ffff {
        return Err(fail(rid, method, object1("frame_id", json::string(fid)), "out of bounds"));
    }
    let button = match json::get(&v, "button") {
        Some(b) => match json::as_str(b) {
            Some(b) => b,
            None => "left",
        },
        None => "left",
    };
    if !(same_text(button, "left") || same_text(button, "right") || same_text(button, "middle")) {
        return Err(fail(rid, method, object1("frame_id", json::string(fid)), "bad button"));
    }
    if !caps.allows("mouse.click") {
        return Err(
            deny(rid, method, object1("frame_id", json::string(fid)), "capability not granted"),
        );
    }
    if !rate_hit(hits, now, 10, 1000) {
        return Err(rate_limited(rid, method, object1("frame_id", json::string(fid))));
    }
    let meta = match frames.get(fid, now) {
        Some(m) => m,
        None => {
            let reply = error::err(410, "stale_frame", "re-capture first", true, rid);
            return Err(
                refuse(rid, method, object1("frame_id", json::string(fid)), "stale_frame", reply),
            );
        },
    };
    Ok(ClickTarget { frame_id: fid.to_owned(), x, y, button: button.to_owned(), frame: meta })
}

/// Maps a checked click to native coordinates: `scaled` is its point
/// divided by the frame's scale and floored, which the caller computes in
/// floating point. A point outside the frame, or mapped outside the
/// source, is refused as "out of bounds" (400).
pub fn locate_click(rid: &str, t: &ClickTarget, scaled: (u32, u32)) -> (r: Result<ClickGo, Finish>)
    requires
        t.x <= u32::MAX,
        t.y <= u32::MAX,
    ensures
        match crate::backends::native_of(t.frame@, t.x as u32, t.y as u32, scaled) {
            None => r matches Err(f) && f@ == failed(
                rid@,
                "mouse.click"@,
                click_at(t.frame_id@, t.x, t.y),
                "out of bounds"@,
            ),
            Some((nx, ny)) => r matches Ok(g) && g.frame_id@ == t.frame_id@ && g.x == t.x && g.y
                == t.y && g.native_x == nx && g.native_y == ny && g.button@ == t.button@,
        },
{
    let x = t.x as u32;
    let y = t.y as u32;
    match crate::backends::FrameStore::to_native(&t.frame, x, y, scaled) {
        Some((nx, ny)) => Ok(
            ClickGo {
                frame_id: t.frame_id.clone(),
                x: t.x,
                y: t.y,
                native_x: nx,
                native_y: ny,
                button: t.button.clone(),
            },
        ),
        None => Err(fail(rid, "mouse.click", click_at_params(t.frame_id.as_str(), t.x, t.y), "out of bounds")),
    }
}

/// The end of a `mouse.click` request once the backend has answered.
pub open spec fn click_outcome(
    rid: Seq<char>,
    fid: Seq<char>,
    x: u64,
    y: u64,
    nx: u32,
    ny: u32,
    result: Result<(), Seq<char>>,
) -> FinishView {
    match result {
        Ok(()) => allowed(rid, "mouse.click"@, click_native(fid, x, y, nx, ny), ok_reply()),
        Err(e) => backend_failure(rid, "mouse.click"@, click_at(fid, x, y), "input_failed"@, e, false),
    }
}

/// Records the backend's answer to a click (see `click_outcome`).
pub fn finish_click(rid: &str, go: &ClickGo, result: Result<(), String>) -> (r: Finish)
    ensures
        r@ == click_outcome(
            rid@,
            go.frame_id@,
            go.x,
            go.y,
            go.native_x,
            go.native_y,
            result_text(result),
        ),
{
    match result {
        Ok(()) => allow(
            rid,
            "mouse.click",
            click_native_params(go.frame_id.as_str(), go.x, go.y, go.native_x, go.native_y),
            ok_body(),
        ),
        Err(e) => {
            let reply = error::err(502, "input_failed", e.as_str(), false, rid);
            refuse(
                rid,
                "mouse.click",
                click_at_params(go.frame_id.as_str(), go.x, go.y),
                e.as_str(),
                reply,
            )
        },
    }
}

// ---------------------------------------------------------------------------
// screen.capture

pub open spec fn clamp(v: u64, lo: u64, hi: u64) -> u64 {
    if v < lo {
        lo
    } else if v > hi {
        hi
    } else {
        v
    }
}

/// The monitor and the width bound of a capture request: an empty body is
/// `{}`; `max_width` defaults to 1280 and is clamped to 320..=3840.
pub open spec fn capture_body(body: Seq<u8>) -> Result<(Option<Seq<char>>, u32), Seq<char>> {
    let parsed = if body.len() == 0 {
        Some(empty_obj())
    } else {
        parsed_bytes(body)
    };
    match parsed {
        None => Err("malformed JSON"@),
        Some(v) => if approval_present(v) {
            Err("approval_id not accepted in M0"@)
        } else {
            let mw = match field_u64(v, "max_width"@) {
                Some(w) => w,
                None => 1280,
            };
            Ok((field_str(v, "monitor_id"@), clamp(mw, 320, 3840) as u32))
        },
    }
}

/// An accepted capture request.
pub struct CaptureGo {
    pub monitor_id: Option<String>,
    pub max_width: u32,
}

pub open spec fn option_string(s: Option<String>) -> Option<Seq<char>> {
    match s {
        Some(t) => Some(t@),
        None => None,
    }
}

/// Checks the capability, applies the capture rate limit (5 per second),
/// then reads the request (see `capture_body`).
pub fn plan_capture(
    caps: &Capabilities,
    hits: &mut Vec<u64>,
    now: u64,
    body: &[u8],
    rid: &str,
) -> (r: Result<CaptureGo, Finish>)
    ensures
        if !caps@.contains("screen.capture"@) {
            final(hits)@ == old(hits)@ && (r matches Err(f) && f@ == denied(
                rid@,
                "screen.capture"@,
                empty_obj(),
                "capability not granted"@,
            ))
        } else {
            final(hits)@ == hits_after(old(hits)@, now, 5, 1000) && if !admits(
                old(hits)@,
                now,
                5,
                1000,
            ) {
                r matches Err(f) && f@ == limited(rid@, "screen.capture"@, empty_obj())
            } else {
                match capture_body(body@) {
                    Err(reason) => r matches Err(f) && f@ == failed(
                        rid@,
                        "screen.capture"@,
                        empty_obj(),
                        reason,
                    ),
                    Ok((mid, mw)) => r matches Ok(g) && option_string(g.monitor_id) == mid
                        && g.max_width == mw,
                }
            }
        },
{
    let method = "screen.capture";
    if !caps.allows("screen.capture") {
        return Err(deny(rid, method, new_object(), "capability not granted"));
    }
    if !rate_hit(hits, now, 5, 1000) {
        return Err(rate_limited(rid, method, new_object()));
    }
    if body.len() == 0 {
        proof {
            assert(object_of(seq![]) == Map::<Seq<char>, JsonView>::empty());
        }
        return Ok(CaptureGo { monitor_id: None, max_width: 1280 });
    }
    let v = match json::parse_bytes(body) {
        Some(v) => v,
        None => return Err(fail(rid, method, new_object(), "malformed JSON")),
    };
    if json::get(&v, "approval_id").is_some() {
        return Err(fail(rid, method, new_object(), "approval_id not accepted in M0"));
    }
    let monitor_id = match json::get(&v, "monitor_id") {
        Some(m) => match json::as_str(m) {
            Some(s) => Some(s.to_owned()),
            None => None,
        },
        None => None,
    };
    let requested = match json::get(&v, "max_width") {
        Some(w) => match json::as_u64(w) {
            Some(w) => w,
            None => 1280,
        },
        None => 1280,
    };
    let max_width: u64 = if requested < 320 {
        320
    } else if requested > 3840 {
        3840
    } else {
        requested
    };
    Ok(CaptureGo { monitor_id, max_width: max_width as u32 })
}

/// What a backend's frame says.
pub struct RawFrameView {
    pub monitor_id: Seq<char>,
    pub source_width: u32,
    pub source_height: u32,
    pub rgba: Seq<u8>,
}

pub open spec fn raw_view(r: Result<crate::backends::RawFrame, String>) -> Result<RawFrameView, Seq<char>> {
    match r {
        Ok(f) => Ok(
            RawFrameView {
                monitor_id: f.monitor_id@,
                source_width: f.source_width,
                source_height: f.source_height,
                rgba: f.rgba@,
            },
        ),
        Err(e) => Err(e@),
    }
}

/// A frame scaled and encoded for the client.
pub struct Rendered {
    pub monitor_id: String,
    pub source_width: u32,
    pub source_height: u32,
    pub output_width: u32,
    pub output_height: u32,
    pub scale_num: u32,
    pub scale_den: u32,
    pub png: Vec<u8>,
}

pub struct RenderedView {
    pub monitor_id: Seq<char>,
    pub source_width: u32,
    pub source_height: u32,
    pub output_width: u32,
    pub output_height: u32,
    pub scale_num: u32,
    pub scale_den: u32,
    pub png: Seq<u8>,
}

impl View for Rendered {
    type V = RenderedView;

    open spec fn view(&self) -> RenderedView {
        RenderedView {
            monitor_id: self.monitor_id@,
            source_width: self.source_width,
            source_height: self.source_height,
            output_width: self.output_width,
            output_height: self.output_height,
            scale_num: self.scale_num,
            scale_den: self.scale_den,
            png: self.png@,
        }
    }
}

pub open spec fn monitor_only(mid: Seq<char>) -> JsonView {
    obj(seq![("monitor_id"@, JsonView::Str(mid))])
}

/// What the host makes of the backend's answer to a capture: an error is
/// 502 `capture_failed` (retryable), an empty frame 400, pixel data shorter
/// than the geometry 502; otherwise the frame goes on to be scaled.
pub open spec fn frame_check(rid: Seq<char>, raw: Result<RawFrameView, Seq<char>>) -> Result<
    RawFrameView,
    FinishView,
> {
    match raw {
        Err(e) => Err(backend_failure(rid, "screen.capture"@, empty_obj(), "capture_failed"@, e, true)),
        Ok(f) => if f.source_width == 0 || f.source_height == 0 {
            Err(failed(rid, "screen.capture"@, monitor_only(f.monitor_id), "zero-size frame"@))
        } else if f.rgba.len() < 4 * (f.source_width as int) * (f.source_height as int) {
            Err(
                refused(
                    rid,
                    "screen.capture"@,
                    monitor_only(f.monitor_id),
                    "frame data mismatch"@,
                    error_reply(502, "capture_failed"@, "frame data mismatch"@, true, rid),
                ),
            )
        } else {
            Ok(f)
        },
    }
}

/// Checks the backend's answer to a capture (see `frame_check`).
pub fn check_frame(rid: &str, raw: Result<crate::backends::RawFrame, String>) -> (r: Result<
    crate::backends::RawFrame,
    Finish,
>)
    ensures
        match frame_check(rid@, raw_view(raw)) {
            Ok(fv) => r matches Ok(g) && raw_view(Ok(g)) == Ok::<RawFrameView, Seq<char>>(fv),
            Err(fv) => r matches Err(f) && f@ == fv,
        },
{
    let method = "screen.capture";
    let frame = match raw {
        Ok(f) => f,
        Err(e) => {
            let reply = error::err(502, "capture_failed", e.as_str(), true, rid);
            return Err(refuse(rid, method, new_object(), e.as_str(), reply));
        },
    };
    let w = frame.source_width;
    let h = frame.source_height;
    if w == 0 || h == 0 {
        let params = object1("monitor_id", json::string(frame.monitor_id.as_str()));
        return Err(fail(rid, method, params, "zero-size frame"));
    }
    assert((w as u128) * (h as u128) <= 0xffff_ffff_u128 * 0xffff_ffff_u128) by (nonlinear_arith)
        requires
            w <= 0xffff_ffff,
            h <= 0xffff_ffff,
    ;
    let needed: u128 = 4 * ((w as u128) * (h as u128));
    assert(needed == 4 * (w as int) * (h as int)) by (nonlinear_arith)
        requires
            needed == 4 * ((w as int) * (h as int)),
    ;
    if (frame.rgba.len() as u128) < needed {
        let reply = error::err(502, "capture_failed", "frame data mismatch", true, rid);
        let params = object1("monitor_id", json::string(frame.monitor_id.as_str()));
        return Err(refuse(rid, method, params, "frame data mismatch", reply));
    }
    Ok(frame)
}

/// The frame's scale as a ratio: the width bound over the source width, or
/// 1 (the width over itself) when the bound is not smaller.
pub open spec fn scale_of(w: u32, max_width: u32) -> (u32, u32) {
    if max_width < w {
        (max_width, w)
    } else {
        (w, w)
    }
}

/// Scaling a checked frame to `ow` x `oh` pixels (sizes the caller computes
/// in floating point from the scale) and encoding it as PNG: 502 when
/// encoding fails.
pub open spec fn render_spec(
    rid: Seq<char>,
    f: RawFrameView,
    max_width: u32,
    ow: u32,
    oh: u32,
) -> Result<RenderedView, FinishView> {
    match crate::imaging::png_file(
        crate::imaging::resized(f.rgba, f.source_width, f.source_height, ow, oh),
        ow,
        oh,
    ) {
        None => Err(
            refused(
                rid,
                "screen.capture"@,
                empty_obj(),
                "encode failed"@,
                error_reply(502, "capture_failed"@, "encode failed"@, true, rid),
            ),
        ),
        Some(png) => Ok(
            RenderedView {
                monitor_id: f.monitor_id,
                source_width: f.source_width,
                source_height: f.source_height,
                output_width: ow,
                output_height: oh,
                scale_num: scale_of(f.source_width, max_width).0,
                scale_den: scale_of(f.source_width, max_width).1,
                png,
            },
        ),
    }
}

/// Scales a checked frame to the given output size and encodes it as PNG
/// (see `render_spec`).
pub fn render_capture(
    rid: &str,
    frame: crate::backends::RawFrame,
    max_width: u32,
    output_width: u32,
    output_height: u32,
) -> (r: Result<Rendered, Finish>)
    requires
        frame.source_width > 0,
        frame.source_height > 0,
        frame.rgba@.len() >= 4 * (frame.source_width as int) * (frame.source_height as int),
        output_width <= frame.source_width,
        output_height <= frame.source_height,
    ensures
        match render_spec(rid@, raw_view(Ok(frame))->Ok_0, max_width, output_width, output_height) {
            Ok(rv) => r matches Ok(g) && g@ == rv,
            Err(fv) => r matches Err(f) && f@ == fv,
        },
{
    let w = frame.source_width;
    let h = frame.source_height;
    let pixels = crate::imaging::resize_rgba(frame.rgba, w, h, output_width, output_height);
    let png = match crate::imaging::encode_png(pixels, output_width, output_height) {
        Some(p) => p,
        None => {
            let reply = error::err(502, "capture_failed", "encode failed", true, rid);
            return Err(refuse(rid, "screen.capture", new_object(), "encode failed", reply));
        },
    };
    let (num, den) = if max_width < w {
        (max_width, w)
    } else {
        (w, w)
    };
    Ok(
        Rendered {
            monitor_id: frame.monitor_id,
            source_width: w,
            source_height: h,
            output_width,
            output_height,
            scale_num: num,
            scale_den: den,
            png,
        },
    )
}

pub open spec fn monitor_json(m: crate::backends::MonitorView) -> JsonView {
    obj(
        seq![
            ("monitor_id"@, JsonView::Str(m.monitor_id)),
            ("source_width"@, uint(m.source_width as nat)),
            ("source_height"@, uint(m.source_height as nat)),
            ("is_primary"@, JsonView::Bool(m.is_primary)),
        ],
    )
}

pub open spec fn monitor_views(ms: Seq<crate::backends::MonitorInfo>) -> Seq<crate::backends::MonitorView> {
    ms.map_values(|m: crate::backends::MonitorInfo| m@)
}

pub open spec fn monitors_json(ms: Seq<crate::backends::MonitorView>) -> JsonView {
    JsonView::Array(ms.map_values(|m: crate::backends::MonitorView| monitor_json(m)))
}

/// The frame that a capture registers.
pub open spec fn frame_of(r: RenderedView, now: u64) -> crate::backends::FrameMetaView {
    crate::backends::FrameMetaView {
        monitor_id: r.monitor_id,
        source_width: r.source_width,
        source_height: r.source_height,
        output_width: r.output_width,
        output_height: r.output_height,
        scale_num: r.scale_num,
        scale_den: r.scale_den,
        created: now,
    }
}

/// The successful end of a capture: the frame's geometry, the PNG as
/// Base64 and the monitor list, recorded with the frame and monitor ids.
pub open spec fn capture_done(
    rid: Seq<char>,
    r: RenderedView,
    monitors: Seq<crate::backends::MonitorView>,
    fid: Seq<char>,
) -> FinishView {
    allowed(
        rid,
        "screen.capture"@,
        obj(seq![("frame_id"@, JsonView::Str(fid)), ("monitor_id"@, JsonView::Str(r.monitor_id))]),
        ReplyView {
            status: 200,
            body: obj(
                seq![
                    ("frame_id"@, JsonView::Str(fid)),
                    ("monitor_id"@, JsonView::Str(r.monitor_id)),
                    ("source_width"@, uint(r.source_width as nat)),
                    ("source_height"@, uint(r.source_height as nat)),
                    ("output_width"@, uint(r.output_width as nat)),
                    ("output_height"@, uint(r.output_height as nat)),
                    ("image_base64"@, JsonView::Str(crate::imaging::base64_text(r.png))),
                    ("mime"@, JsonView::Str("image/png"@)),
                    ("monitors"@, monitors_json(monitors)),
                ],
            ),
            scale: Some((r.scale_num, r.scale_den)),
        },
    )
}

proof fn lemma_capture_keys()
    ensures
        json::keys_distinct(
            seq![
                "frame_id"@,
                "monitor_id"@,
                "source_width"@,
                "source_height"@,
                "output_width"@,
                "output_height"@,
                "image_base64"@,
                "mime"@,
                "monitors"@,
            ],
        ),
        json::keys_distinct(seq!["monitor_id"@, "source_width"@, "source_height"@, "is_primary"@]),
        "frame_id"@ != "monitor_id"@,
{
    reveal_strlit("frame_id");
    reveal_strlit("monitor_id");
    reveal_strlit("source_width");
    reveal_strlit("source_height");
    reveal_strlit("output_width");
    reveal_strlit("output_height");
    reveal_strlit("image_base64");
    reveal_strlit("mime");
    reveal_strlit("monitors");
    reveal_strlit("is_primary");
    let keys = seq![
        "frame_id"@,
        "monitor_id"@,
        "source_width"@,
        "source_height"@,
        "output_width"@,
        "output_height"@,
        "image_base64"@,
        "mime"@,
        "monitors"@,
    ];
    assert forall|i: int, j: int| 0 <= i < j < keys.len() implies keys[i] != keys[j] by {
        if keys[i].len() == keys[j].len() {
            assert(keys[i][0] != keys[j][0]);
        }
    }
    let keys2 = seq!["monitor_id"@, "source_width"@, "source_height"@, "is_primary"@];
    assert forall|i: int, j: int| 0 <= i < j < keys2.len() implies keys2[i] != keys2[j] by {
        if keys2[i].len() == keys2[j].len() {
            assert(keys2[i][0] != keys2[j][0]);
        }
    }
}

fn monitor_object(m: &crate::backends::MonitorInfo) -> (r: serde_json::Value)
    ensures
        json::json_view(r) == monitor_json(m@),
{
    let pairs: Vec<(String, serde_json::Value)> = vec![
        ("monitor_id".to_owned(), json::string(m.monitor_id.as_str())),
        ("source_width".to_owned(), json::uint(m.source_width as u64)),
        ("source_height".to_owned(), json::uint(m.source_height as u64)),
        ("is_primary".to_owned(), json::boolean(m.is_primary)),
    ];
    proof {
        lemma_capture_keys();
        assert(pairs@.map_values(|p: (String, serde_json::Value)| p.0@) =~= seq![
            "monitor_id"@,
            "source_width"@,
            "source_height"@,
            "is_primary"@,
        ]);
        assert(pairs@.map_values(|p: (String, serde_json::Value)| (p.0@, json::json_view(p.1)))
            =~= seq![
            ("monitor_id"@, JsonView::Str(m.monitor_id@)),
            ("source_width"@, uint(m.source_width as nat)),
            ("source_height"@, uint(m.source_height as nat)),
            ("is_primary"@, JsonView::Bool(m.is_primary)),
        ]);
    }
    make_object(pairs)
}

fn monitors_array(ms: &Vec<crate::backends::MonitorInfo>) -> (r: serde_json::Value)
    ensures
        json::json_view(r) == monitors_json(ms@.map_values(|m: crate::backends::MonitorInfo| m@)),
{
    let mut vs: Vec<serde_json::Value> = Vec::new();
    let mut i: usize = 0;
    while i < ms.len()
        invariant
            i <= ms@.len(),
            vs@.len() == i,
            forall|j: int| 0 <= j < i ==> json::json_view(#[trigger] vs@[j]) == monitor_json(ms@[j]@),
        decreases ms@.len() - i,
    {
        vs.push(monitor_object(&ms[i]));
        i = i + 1;
    }
    proof {
        assert(json::views_of(vs@) =~= ms@.map_values(|m: crate::backends::MonitorInfo| m@).map_values(
            |m: crate::backends::MonitorView| monitor_json(m),
        ));
    }
    json::array(vs)
}

/// The monitors a capture reply lists: those the backend named, or none
/// when it could not list them.
pub open spec fn listed_monitors(
    m: Result<Vec<crate::backends::MonitorInfo>, String>,
) -> Seq<crate::backends::MonitorView> {
    match m {
        Ok(v) => monitor_views(v@),
        Err(_) => seq![],
    }
}

/// Registers the rendered frame (created now) and builds the reply (see
/// `capture_done`) with the monitors the backend listed (see
/// `listed_monitors`); the frame id is the one the registry handed out.
pub fn finish_capture(
    rid: &str,
    r: Rendered,
    monitors: Result<Vec<crate::backends::MonitorInfo>, String>,
    frames: &mut crate::backends::FrameStore,
    now: u64,
) -> (f: Finish)
    ensures
        exists|fid: Seq<char>|
            #![trigger capture_done(rid@, r@, listed_monitors(monitors), fid)]
            f@ == capture_done(rid@, r@, listed_monitors(monitors), fid)
                && crate::backends::inserted(old(frames)@, final(frames)@, now, fid, frame_of(r@, now))
                && crate::backends::uuid_v4_text(fid),
{
    let ghost rv = r@;
    let ghost listed = listed_monitors(monitors);
    let monitors: Vec<crate::backends::MonitorInfo> = match monitors {
        Ok(v) => v,
        Err(_) => Vec::new(),
    };
    proof {
        assert(monitor_views(monitors@) =~= listed);
    }
    let meta = crate::backends::FrameMeta {
        monitor_id: r.monitor_id.clone(),
        source_width: r.source_width,
        source_height: r.source_height,
        output_width: r.output_width,
        output_height: r.output_height,
        scale_num: r.scale_num,
        scale_den: r.scale_den,
        created: now,
    };
    let fid = frames.insert(meta, now);
    proof {
        lemma_capture_keys();
    }
    let params = object2(
        "frame_id",
        json::string(fid.as_str()),
        "monitor_id",
        json::string(r.monitor_id.as_str()),
    );
    let image = crate::imaging::encode_base64(r.png.as_slice());
    let pairs: Vec<(String, serde_json::Value)> = vec![
        ("frame_id".to_owned(), json::string(fid.as_str())),
        ("monitor_id".to_owned(), json::string(r.monitor_id.as_str())),
        ("source_width".to_owned(), json::uint(r.source_width as u64)),
        ("source_height".to_owned(), json::uint(r.source_height as u64)),
        ("output_width".to_owned(), json::uint(r.output_width as u64)),
        ("output_height".to_owned(), json::uint(r.output_height as u64)),
        ("image_base64".to_owned(), json::string(image.as_str())),
        ("mime".to_owned(), json::string("image/png")),
        ("monitors".to_owned(), monitors_array(&monitors)),
    ];
    proof {
        assert(pairs@.map_values(|p: (String, serde_json::Value)| p.0@) =~= seq![
            "frame_id"@,
            "monitor_id"@,
            "source_width"@,
            "source_height"@,
            "output_width"@,
            "output_height"@,
            "image_base64"@,
            "mime"@,
            "monitors"@,
        ]);
        assert(pairs@.map_values(|p: (String, serde_json::Value)| (p.0@, json::json_view(p.1)))
            =~= seq![
            ("frame_id"@, JsonView::Str(fid@)),
            ("monitor_id"@, JsonView::Str(rv.monitor_id)),
            ("source_width"@, uint(rv.source_width as nat)),
            ("source_height"@, uint(rv.source_height as nat)),
            ("output_width"@, uint(rv.output_width as nat)),
            ("output_height"@, uint(rv.output_height as nat)),
            ("image_base64"@, JsonView::Str(crate::imaging::base64_text(rv.png))),
            ("mime"@, JsonView::Str("image/png"@)),
            ("monitors"@, monitors_json(monitors@.map_values(|m: crate::backends::MonitorInfo| m@))),
        ]);
    }
    let body = make_object(pairs);
    let reply = Reply { status: 200, body, scale: Some((r.scale_num, r.scale_den)) };
    let f = allow(rid, "screen.capture", params, reply);
    proof {
        assert(f@ == capture_done(rid@, rv, listed, fid@));
    }
    f
}

// ---------------------------------------------------------------------------
// Read-only endpoints.

pub open spec fn health_json() -> JsonView {
    obj(seq![("ok"@, JsonView::Bool(true)), ("version"@, JsonView::Str("0.1.0"@))])
}

pub open spec fn granted_json(names: Seq<Seq<char>>) -> JsonView {
    obj(seq![("granted"@, strs(names))])
}

/// What `/v1/system` reports: protocol and platform, backend names, the
/// sorted grants, and the M0 feature flags.
pub open spec fn system_json(screen: Seq<char>, input: Seq<char>, names: Seq<Seq<char>>) -> JsonView {
    obj(
        seq![
            ("protocol_version"@, JsonView::Str("1.0"@)),
            ("platform"@, JsonView::Str("linux-x11"@)),
            (
                "backend"@,
                obj(seq![("screen"@, JsonView::Str(screen)), ("input"@, JsonView::Str(input))]),
            ),
            ("granted"@, strs(names)),
            (
                "features"@,
                obj(
                    seq![
                        ("multi_monitor"@, JsonView::Bool(true)),
                        ("approval"@, JsonView::Bool(false)),
                        ("approval_id_accepted"@, JsonView::Bool(false)),
                    ],
                ),
            ),
        ],
    )
}

proof fn lemma_info_keys()
    ensures
        json::keys_distinct(
            seq!["protocol_version"@, "platform"@, "backend"@, "granted"@, "features"@],
        ),
        "screen"@ != "input"@,
        "multi_monitor"@ != "approval"@,
        "multi_monitor"@ != "approval_id_accepted"@,
        "approval"@ != "approval_id_accepted"@,
        "ok"@ != "version"@,
{
    reveal_strlit("protocol_version");
    reveal_strlit("platform");
    reveal_strlit("backend");
    reveal_strlit("granted");
    reveal_strlit("features");
    reveal_strlit("screen");
    reveal_strlit("input");
    reveal_strlit("multi_monitor");
    reveal_strlit("approval");
    reveal_strlit("approval_id_accepted");
    reveal_strlit("ok");
    reveal_strlit("version");
    let keys = seq!["protocol_version"@, "platform"@, "backend"@, "granted"@, "features"@];
    assert forall|i: int, j: int| 0 <= i < j < keys.len() implies keys[i] != keys[j] by {
        if keys[i].len() == keys[j].len() {
            assert(keys[i][0] != keys[j][0]);
        }
    }
    assert("screen"@.len() != "input"@.len());
    assert("multi_monitor"@.len() != "approval"@.len());
    assert("multi_monitor"@.len() != "approval_id_accepted"@.len());
    assert("approval"@.len() != "approval_id_accepted"@.len());
    assert("ok"@.len() != "version"@.len());
}

/// The body of `/health` (no authentication needed).
pub fn health_info() -> (r: serde_json::Value)
    ensures
        json::json_view(r) == health_json(),
{
    proof {
        lemma_info_keys();
    }
    object2("ok", json::boolean(true), "version", json::string("0.1.0"))
}

/// The body of `/v1/capabilities`.
pub fn granted_info(caps: &Capabilities) -> (r: serde_json::Value)
    ensures
        json::json_view(r) == granted_json(crate::capabilities::granted_in_order(caps@)),
{
    let names = caps.list();
    object1("granted", string_array(&names))
}

/// The body of `/v1/system`.
pub fn system_info(screen: &str, input: &str, caps: &Capabilities) -> (r: serde_json::Value)
    ensures
        json::json_view(r) == system_json(
            screen@,
            input@,
            crate::capabilities::granted_in_order(caps@),
        ),
{
    proof {
        lemma_info_keys();
    }
    let names = caps.list();
    let backend = object2("screen", json::string(screen), "input", json::string(input));
    let features = object3(
        "multi_monitor",
        json::boolean(true),
        "approval",
        json::boolean(false),
        "approval_id_accepted",
        json::boolean(false),
    );
    let ghost bv = json::json_view(backend);
    let ghost fv = json::json_view(features);
    let granted = string_array(&names);
    let ghost gv = json::json_view(granted);
    let pairs: Vec<(String, serde_json::Value)> = vec![
        ("protocol_version".to_owned(), json::string("1.0")),
        ("platform".to_owned(), json::string("linux-x11")),
        ("backend".to_owned(), backend),
        ("granted".to_owned(), granted),
        ("features".to_owned(), features),
    ];
    proof {
        assert(pairs@.map_values(|p: (String, serde_json::Value)| p.0@) =~= seq![
            "protocol_version"@,
            "platform"@,
            "backend"@,
            "granted"@,
            "features"@,
        ]);
        assert(pairs@.map_values(|p: (String, serde_json::Value)| (p.0@, json::json_view(p.1)))
            =~= seq![
            ("protocol_version"@, JsonView::Str("1.0"@)),
            ("platform"@, JsonView::Str("linux-x11"@)),
            ("backend"@, bv),
            ("granted"@, gv),
            ("features"@, fv),
        ]);
    }
    make_object(pairs)
}

// ---------------------------------------------------------------------------
// Laws.

/// The request id in an error envelope.
pub open spec fn envelope_request_id(body: JsonView) -> Option<Seq<char>> {
    match field(body, "error"@) {
        Some(e) => field_str(e, "request_id"@),
        None => None,
    }
}

/// The audit record carries `rid`, and so does the error envelope of any
/// reply that is not a success.
pub open spec fn one_request_id(f: FinishView, rid: Seq<char>) -> bool {
    &&& f.request_id == rid
    &&& f.reply.status != 200 ==> envelope_request_id(f.reply.body) == Some(rid)
}

proof fn lemma_envelope(status: u16, code: Seq<char>, message: Seq<char>, retryable: bool, rid: Seq<char>)
    ensures
        envelope_request_id(error_reply(status, code, message, retryable, rid).body) == Some(rid),
{
    reveal_strlit("code");
    reveal_strlit("message");
    reveal_strlit("retryable");
    reveal_strlit("request_id");
    assert("request_id"@.len() != "code"@.len());
    assert("request_id"@.len() != "message"@.len());
    assert("request_id"@.len() != "retryable"@.len());
    reveal_with_fuel(object_of, 5);
}

proof fn lemma_refusal_ids(rid: Seq<char>, method: Seq<char>, p: JsonView, reason: Seq<char>)
    ensures
        one_request_id(failed(rid, method, p, reason), rid),
        one_request_id(denied(rid, method, p, reason), rid),
        one_request_id(limited(rid, method, p), rid),
{
    lemma_envelope(400, "bad_argument"@, reason, false, rid);
    lemma_envelope(403, "forbidden_capability"@, reason, false, rid);
    lemma_envelope(429, "rate_limited"@, "slow down"@, true, rid);
}

/// Law: one request id per request. Whatever a key press comes to, the
/// audit record and the error envelope carry the same request id.
pub proof fn law_press_one_request_id(
    granted: Set<Seq<char>>,
    body: Seq<u8>,
    rid: Seq<char>,
    key: Seq<char>,
    mods: Seq<Seq<char>>,
    result: Result<(), Seq<char>>,
)
    ensures
        press_check(granted, body) matches Check::Fail(p, reason) ==> one_request_id(
            failed(rid, "keyboard.press"@, p, reason),
            rid,
        ),
        press_check(granted, body) matches Check::Deny(p, reason) ==> one_request_id(
            denied(rid, "keyboard.press"@, p, reason),
            rid,
        ),
        one_request_id(limited(rid, "keyboard.press"@, key_mods(key, mods)), rid),
        one_request_id(press_outcome(rid, key, mods, result), rid),
{
    match press_check(granted, body) {
        Check::Fail(p, reason) => lemma_refusal_ids(rid, "keyboard.press"@, p, reason),
        Check::Deny(p, reason) => lemma_refusal_ids(rid, "keyboard.press"@, p, reason),
        _ => {},
    }
    lemma_refusal_ids(rid, "keyboard.press"@, key_mods(key, mods), "unknown key"@);
    if let Err(e) = result {
        lemma_envelope(502, "input_failed"@, e, false, rid);
    }
}

/// Law: one request id per request, for typing.
pub proof fn law_type_one_request_id(
    granted: Set<Seq<char>>,
    body: Seq<u8>,
    rid: Seq<char>,
    text: Seq<char>,
    result: Result<(), Seq<char>>,
)
    ensures
        type_check(granted, body) matches Check::Fail(p, reason) ==> one_request_id(
            failed(rid, "keyboard.type"@, p, reason),
            rid,
        ),
        type_check(granted, body) matches Check::Deny(p, reason) ==> one_request_id(
            denied(rid, "keyboard.type"@, p, reason),
            rid,
        ),
        one_request_id(limited(rid, "keyboard.type"@, text_len(text)), rid),
        one_request_id(type_outcome(rid, text, result), rid),
{
    match type_check(granted, body) {
        Check::Fail(p, reason) => lemma_refusal_ids(rid, "keyboard.type"@, p, reason),
        Check::Deny(p, reason) => lemma_refusal_ids(rid, "keyboard.type"@, p, reason),
        _ => {},
    }
    lemma_refusal_ids(rid, "keyboard.type"@, text_len(text), ""@);
    if let Err(e) = result {
        lemma_envelope(502, "input_failed"@, e, false, rid);
    }
}

/// Law: one request id per request, for clicks (including a stale frame
/// and a point outside the frame).
pub proof fn law_click_one_request_id(
    granted: Set<Seq<char>>,
    body: Seq<u8>,
    rid: Seq<char>,
    fid: Seq<char>,
    x: u64,
    y: u64,
    nx: u32,
    ny: u32,
    result: Result<(), Seq<char>>,
)
    ensures
        click_check(granted, body) matches Check::Fail(p, reason) ==> one_request_id(
            failed(rid, "mouse.click"@, p, reason),
            rid,
        ),
        click_check(granted, body) matches Check::Deny(p, reason) ==> one_request_id(
            denied(rid, "mouse.click"@, p, reason),
            rid,
        ),
        one_request_id(limited(rid, "mouse.click"@, frame_only(fid)), rid),
        one_request_id(stale_frame(rid, fid), rid),
        one_request_id(failed(rid, "mouse.click"@, click_at(fid, x, y), "out of bounds"@), rid),
        one_request_id(click_outcome(rid, fid, x, y, nx, ny, result), rid),
{
    match click_check(granted, body) {
        Check::Fail(p, reason) => lemma_refusal_ids(rid, "mouse.click"@, p, reason),
        Check::Deny(p, reason) => lemma_refusal_ids(rid, "mouse.click"@, p, reason),
        _ => {},
    }
    lemma_refusal_ids(rid, "mouse.click"@, frame_only(fid), ""@);
    lemma_refusal_ids(rid, "mouse.click"@, click_at(fid, x, y), "out of bounds"@);
    lemma_envelope(410, "stale_frame"@, "re-capture first"@, true, rid);
    if let Err(e) = result {
        lemma_envelope(502, "input_failed"@, e, false, rid);
    }
}

/// Law: one request id per request, for captures.
pub proof fn law_capture_one_request_id(
    body: Seq<u8>,
    rid: Seq<char>,
    raw: Result<RawFrameView, Seq<char>>,
    frame: RawFrameView,
    max_width: u32,
    ow: u32,
    oh: u32,
    r: RenderedView,
    monitors: Seq<crate::backends::MonitorView>,
    fid: Seq<char>,
)
    ensures
        one_request_id(
            denied(rid, "screen.capture"@, empty_obj(), "capability not granted"@),
            rid,
        ),
        one_request_id(limited(rid, "screen.capture"@, empty_obj()), rid),
        capture_body(body) matches Err(reason) ==> one_request_id(
            failed(rid, "screen.capture"@, empty_obj(), reason),
            rid,
        ),
        frame_check(rid, raw) matches Err(f) ==> one_request_id(f, rid),
        render_spec(rid, frame, max_width, ow, oh) matches Err(f) ==> one_request_id(f, rid),
        one_request_id(capture_done(rid, r, monitors, fid), rid),
{
    lemma_refusal_ids(rid, "screen.capture"@, empty_obj(), "capability not granted"@);
    if let Err(reason) = capture_body(body) {
        lemma_refusal_ids(rid, "screen.capture"@, empty_obj(), reason);
    }
    match raw {
        Err(e) => lemma_envelope(502, "capture_failed"@, e, true, rid),
        Ok(f) => {
            lemma_refusal_ids(rid, "screen.capture"@, monitor_only(f.monitor_id), "zero-size frame"@);
            lemma_envelope(502, "capture_failed"@, "frame data mismatch"@, true, rid);
        },
    }
    lemma_envelope(502, "capture_failed"@, "encode failed"@, true, rid);
}

/// Law: one request id per request, for the refusals made before routing
/// (401, 413) and for a body found too large on the way out.
pub proof fn law_guard_one_request_id(
    path: Seq<char>,
    authorization: Option<Seq<char>>,
    content_length: Option<u64>,
    token: Seq<char>,
    rid: Seq<char>,
)
    ensures
        guard_spec(path, authorization, content_length, token, rid) matches Some(f)
            ==> one_request_id(f, rid),
        one_request_id(
            refused(
                rid,
                path,
                empty_obj(),
                "body_too_large"@,
                error_reply(413, "bad_argument"@, "body too large"@, false, rid),
            ),
            rid,
        ),
{
    lemma_envelope(401, "unauthorized"@, "bad or missing token"@, false, rid);
    lemma_envelope(413, "bad_argument"@, "body too large"@, false, rid);
}

/// Law: a key press goes ahead only with `keyboard.press`, and, when it
/// carries any modifier, with `keyboard.press.dangerous` too. Without the
/// dangerous grant, every well-formed press with modifiers is denied.
pub proof fn law_modifiers_need_dangerous(granted: Set<Seq<char>>, body: Seq<u8>)
    ensures
        press_check(granted, body) matches Check::Go((k, ms)) ==> granted.contains(
            "keyboard.press"@,
        ) && (ms.len() > 0 ==> granted.contains("keyboard.press.dangerous"@)),
        granted.contains("keyboard.press"@) && !granted.contains("keyboard.press.dangerous"@)
            ==> match press_check(granted, body) {
            Check::Go((k, ms)) => ms.len() == 0,
            _ => true,
        },
{
}

/// Law: M0 accepts no approval: a request body that carries
/// `approval_id` is refused as a bad argument by every operation.
pub proof fn law_approval_id_refused(granted: Set<Seq<char>>, body: Seq<u8>)
    requires
        parsed_bytes(body) matches Some(v) && approval_present(v),
    ensures
        press_check(granted, body) == Check::<(Seq<char>, Seq<Seq<char>>)>::Fail(
            empty_obj(),
            "approval_id not accepted in M0"@,
        ),
        type_check(granted, body) == Check::<Seq<char>>::Fail(
            empty_obj(),
            "approval_id not accepted in M0"@,
        ),
        click_check(granted, body) == Check::<(Seq<char>, u64, u64, Seq<char>)>::Fail(
            empty_obj(),
            "approval_id not accepted in M0"@,
        ),
        body.len() > 0 ==> capture_body(body) == Err::<(Option<Seq<char>>, u32), Seq<char>>(
            "approval_id not accepted in M0"@,
        ),
{
}

/// Law: input requests (clicks, typing and presses share one limiter of 10
/// per second). From no hits, each accepted call leaves the hits
/// `held_after` the calls so far; in a burst within one second of the
/// first call, the first 10 pass and every later one is answered 429
/// `rate_limited`, retryable.
pub proof fn law_input_burst(
    times: Seq<u64>,
    i: int,
    rid: Seq<char>,
    method: Seq<char>,
    params: JsonView,
)
    requires
        crate::ratelimit::nondecreasing(times),
        forall|j: int| 0 <= j < times.len() ==> elapsed(times[0], #[trigger] times[j]) < 1000,
        0 <= i < times.len(),
    ensures
        hits_after(held_after(times.take(i), 10, 1000), times[i], 10, 1000) == held_after(
            times.take(i + 1),
            10,
            1000,
        ),
        admits(held_after(times.take(i), 10, 1000), times[i], 10, 1000) <==> i < 10,
        limited(rid, method, params).reply == error_reply(
            429,
            "rate_limited"@,
            "slow down"@,
            true,
            rid,
        ),
{
    crate::ratelimit::law_limiter_step(times, 10, 1000, i);
    crate::ratelimit::law_burst_first_max_pass(times, 10, 1000, i);
}

/// Law: captures (5 per second). From no hits, each accepted call leaves
/// the hits `held_after` the calls so far; a call passes exactly when fewer
/// than 5 passed calls lie within the second before it, so no second ever
/// holds more than 5 passed captures.
pub proof fn law_capture_rate(times: Seq<u64>, i: int)
    requires
        crate::ratelimit::nondecreasing(times),
        0 <= i < times.len(),
    ensures
        hits_after(held_after(times.take(i), 5, 1000), times[i], 5, 1000) == held_after(
            times.take(i + 1),
            5,
            1000,
        ),
        admits(held_after(times.take(i), 5, 1000), times[i], 5, 1000) <==> admitted_within(
            times,
            5,
            1000,
            i,
            times[i],
        ) < 5,
        admitted_within(times, 5, 1000, i + 1, times[i]) <= 5,
{
    crate::ratelimit::law_limiter_step(times, 5, 1000, i);
    crate::ratelimit::law_rate_limit_window(times, 5, 1000, i);
}

/// Law: the button of a click. An accepted click names the frame, point
/// and button of its request, with the mouse.click grant; its button is the
/// request's "button" text when it has one and "left" otherwise. A
/// well-formed click request with no "button" text is accepted as a left
/// click.
pub proof fn law_click_button(granted: Set<Seq<char>>, body: Seq<u8>)
    ensures
        click_check(granted, body) matches Check::Go((fid, x, y, b)) ==> (parsed_bytes(body) matches Some(
            v,
        ) && field_str(v, "frame_id"@) == Some(fid) && field_u64(v, "x"@) == Some(x) && field_u64(
            v,
            "y"@,
        ) == Some(y) && x <= u32::MAX && y <= u32::MAX && granted.contains("mouse.click"@) && b == (
        match field_str(v, "button"@) {
            Some(t) => t,
            None => "left"@,
        })),
        parsed_bytes(body) matches Some(v) ==> (field(v, "approval_id"@) is None ==> (field_str(
            v,
            "frame_id"@,
        ) matches Some(fid) ==> (field_u64(v, "x"@) matches Some(x) ==> (field_u64(v, "y"@) matches Some(
            y,
        ) ==> (x <= u32::MAX && y <= u32::MAX && field_str(v, "button"@) is None && granted.contains(
            "mouse.click"@,
        ) ==> click_check(granted, body) == Check::<(Seq<char>, u64, u64, Seq<char>)>::Go(
            (fid, x, y, "left"@),
        )))))),
{
}

/// Law: the length of typed text. Accepted text is the request's "text",
/// 1 to 1024 UTF-8 bytes long, with the keyboard.type grant; and a request
/// whose text is 1 to 1024 bytes long is never refused as invalid: with
/// the grant it is accepted with exactly that text.
pub proof fn law_type_length(granted: Set<Seq<char>>, body: Seq<u8>)
    ensures
        type_check(granted, body) matches Check::Go(t) ==> (1 <= vstd::utf8::encode_utf8(t).len()
            <= 1024 && (parsed_bytes(body) matches Some(v) && field_str(v, "text"@) == Some(t))
            && granted.contains("keyboard.type"@)),
        parsed_bytes(body) matches Some(v) ==> (field(v, "approval_id"@) is None ==> (field_str(
            v,
            "text"@,
        ) matches Some(t) ==> (1 <= vstd::utf8::encode_utf8(t).len() <= 1024 ==> (!(type_check(
            granted,
            body,
        ) is Fail) && (granted.contains("keyboard.type"@) ==> type_check(granted, body)
            == Check::<Seq<char>>::Go(t)))))),
{
}

/// Law: what a capture asks for. A non-empty JSON request without
/// "approval_id" is accepted with the request's "monitor_id" text as the
/// monitor (none only when it has no such text) and a width bound between
/// 320 and 3840: the requested "max_width" when it lies in that range,
/// 1280 when none is given. An accepted monitor always comes from the
/// request.
pub proof fn law_capture_request(body: Seq<u8>)
    ensures
        body.len() > 0 ==> (parsed_bytes(body) matches Some(v) ==> (field(v, "approval_id"@) is None
            ==> (capture_body(body) matches Ok((m, w)) && m == field_str(v, "monitor_id"@) && 320 <= w
            <= 3840 && (field_u64(v, "max_width"@) matches Some(n) ==> (320 <= n <= 3840 ==> w == n))
            && (field_u64(v, "max_width"@) is None ==> w == 1280)))),
        capture_body(body) matches Ok((m, w)) ==> (m is Some ==> (body.len() > 0 && (parsed_bytes(
            body,
        ) matches Some(v) && field_str(v, "monitor_id"@) == m))),
{
}

} // verus!
