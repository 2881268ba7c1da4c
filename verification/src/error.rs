//! The error envelope of every refused request.
use vstd::prelude::*;
use crate::json::{self, JsonView, object_of};

verus! {

/// An HTTP reply: status code and JSON body. A capture reply also asks the
/// caller to add a `"scale"` field holding `scale.0 / scale.1` as a float,
/// which this library does not compute.
pub struct Reply {
    pub status: u16,
    pub body: serde_json::Value,
    pub scale: Option<(u32, u32)>,
}

pub struct ReplyView {
    pub status: u16,
    pub body: JsonView,
    pub scale: Option<(u32, u32)>,
}

impl View for Reply {
    type V = ReplyView;

    open spec fn view(&self) -> ReplyView {
        ReplyView { status: self.status, body: json::json_view(self.body), scale: self.scale }
    }
}

/// `{"error": {"code", "message", "retryable", "request_id"}}`.
pub open spec fn error_body(
    code: Seq<char>,
    message: Seq<char>,
    retryable: bool,
    request_id: Seq<char>,
) -> JsonView {
    JsonView::Object(
        object_of(
            seq![
                (
                    "error"@,
                    JsonView::Object(
                        object_of(
                            seq![
                                ("code"@, JsonView::Str(code)),
                                ("message"@, JsonView::Str(message)),
                                ("retryable"@, JsonView::Bool(retryable)),
                                ("request_id"@, JsonView::Str(request_id)),
                            ],
                        ),
                    ),
                ),
            ],
        ),
    )
}

pub open spec fn error_reply(
    status: u16,
    code: Seq<char>,
    message: Seq<char>,
    retryable: bool,
    request_id: Seq<char>,
) -> ReplyView {
    ReplyView { status, body: error_body(code, message, retryable, request_id), scale: None }
}

/// A JSON object from pairs with distinct keys (see `json::object`).
pub fn make_object(pairs: Vec<(String, serde_json::Value)>) -> (r: serde_json::Value)
    requires
        json::keys_distinct(pairs@.map_values(|p: (String, serde_json::Value)| p.0@)),
    ensures
        json::json_view(r) == JsonView::Object(
            object_of(
                pairs@.map_values(|p: (String, serde_json::Value)| (p.0@, json::json_view(p.1))),
            ),
        ),
{
    json::object(pairs)
}

proof fn lemma_envelope_keys()
    ensures
        json::keys_distinct(seq!["code"@, "message"@, "retryable"@, "request_id"@]),
{
    reveal_strlit("code");
    reveal_strlit("message");
    reveal_strlit("retryable");
    reveal_strlit("request_id");
    let keys = seq!["code"@, "message"@, "retryable"@, "request_id"@];
    assert forall|i: int, j: int| 0 <= i < j < keys.len() implies keys[i] != keys[j] by {
        assert(keys[i].len() != keys[j].len());
    }
}

/// The error envelope with the given status.
pub fn err(status: u16, code: &str, message: &str, retryable: bool, request_id: &str) -> (r: Reply)
    ensures
        r@ == error_reply(status, code@, message@, retryable, request_id@),
{
    let inner_pairs: Vec<(String, serde_json::Value)> = vec![
        ("code".to_owned(), json::string(code)),
        ("message".to_owned(), json::string(message)),
        ("retryable".to_owned(), json::boolean(retryable)),
        ("request_id".to_owned(), json::string(request_id)),
    ];
    proof {
        lemma_envelope_keys();
        assert(inner_pairs@.map_values(|p: (String, serde_json::Value)| p.0@) =~= seq![
            "code"@,
            "message"@,
            "retryable"@,
            "request_id"@,
        ]);
    }
    let inner = make_object(inner_pairs);
    let ghost iv = json::json_view(inner);
    let outer_pairs: Vec<(String, serde_json::Value)> = vec![("error".to_owned(), inner)];
    proof {
        assert(outer_pairs@.map_values(|p: (String, serde_json::Value)| p.0@) =~= seq!["error"@]);
        assert(outer_pairs@.map_values(
            |p: (String, serde_json::Value)| (p.0@, json::json_view(p.1)),
        ) =~= seq![("error"@, iv)]);
    }
    let body = make_object(outer_pairs);
    proof {
        assert(inner_pairs@.map_values(
            |p: (String, serde_json::Value)| (p.0@, json::json_view(p.1)),
        ) =~= seq![
            ("code"@, JsonView::Str(code@)),
            ("message"@, JsonView::Str(message@)),
            ("retryable"@, JsonView::Bool(retryable)),
            ("request_id"@, JsonView::Str(request_id@)),
        ]);
    }
    Reply { status, body, scale: None }
}

} // verus!
