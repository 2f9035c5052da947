//! A probe of a running gateway.
use crate::gateway::answer;
use crate::gateway::http;
use crate::json;
use crate::json::{Json, Tree};
use crate::text;
use vstd::prelude::*;

verus! {

/// The outcome of a probe of a running gateway.
#[derive(Debug, Clone)]
pub struct TestResult {
    pub ok: bool,
    pub status: Option<u16>,
    pub output: Option<String>,
    pub error: Option<String>,
}

/// What the outcome of a probe is.
pub struct ProbeView {
    pub ok: bool,
    pub status: Option<u16>,
    pub output: Option<Seq<char>>,
    pub error: Option<Seq<char>>,
}

impl View for TestResult {
    type V = ProbeView;

    open spec fn view(&self) -> ProbeView {
        ProbeView {
            ok: self.ok,
            status: self.status,
            output: text::opt_text(self.output),
            error: text::opt_text(self.error),
        }
    }
}

/// The outcome of a probe that was answered.
pub open spec fn probed(status: u16, body: Seq<char>) -> ProbeView {
    if http::is_success(status) {
        ProbeView {
            ok: true,
            status: Some(status),
            output: Some(answer::body_text(body)),
            error: None,
        }
    } else {
        ProbeView { ok: false, status: Some(status), output: None, error: Some(body) }
    }
}

/// The address that a probe of the gateway at `base` asks.
pub open spec fn probe_address(base: Seq<char>) -> Seq<char> {
    text::trim_end_char(base, '/') + "/v1/responses"@
}

/// The address that a probe asks.
pub fn test_url(base_url: &str) -> (r: String)
    ensures
        r@ == probe_address(base_url@),
        r@ == text::trim_end_char(base_url@, '/') + "/v1/responses"@,
{
    let base: String = text::trim_end_of(base_url, '/');
    text::joined(base.as_str(), "/v1/responses")
}

/// What a probe asks.
pub open spec fn test_question(model: Seq<char>) -> Tree {
    json::object(
        seq![
            ("model"@, Tree::Text(model)),
            ("stream"@, Tree::Bool(false)),
            ("store"@, Tree::Bool(false)),
            ("input"@, Tree::Text("Reply with exactly: pong"@)),
        ],
    )
}

/// The body of the request of a probe.
pub fn test_body(model: &str) -> (r: Vec<u8>)
    ensures
        r@ == json::json_printed(test_question(model@)),
{
    let members: Vec<(&str, Json)> = vec![
        ("model", Json::text(model)),
        ("stream", Json::Bool(false)),
        ("store", Json::Bool(false)),
        ("input", Json::text("Reply with exactly: pong")),
    ];
    assert(json::pair_trees(members@) == seq![
        ("model"@, Tree::Text(model@)),
        ("stream"@, Tree::Bool(false)),
        ("store"@, Tree::Bool(false)),
        ("input"@, Tree::Text("Reply with exactly: pong"@)),
    ]);
    json::print_json(&json::json_object(members))
}

/// The outcome of a probe that was answered.
pub fn test_gateway(status: u16, body: String) -> (r: TestResult)
    ensures
        r@ == probed(status, body@),
        r.ok == http::is_success(status),
        r.status == Some(status),
        http::is_success(status) ==> r.error is None && text::opt_text(r.output) == Some(
            answer::body_text(body@),
        ),
        !http::is_success(status) ==> r.output is None && text::opt_text(r.error) == Some(body@),
{
    if http::succeeded(status) {
        let output: String = answer::extract_output_text_from_response_text(body.as_str());
        TestResult { ok: true, status: Some(status), output: Some(output), error: None }
    } else {
        TestResult { ok: false, status: Some(status), output: None, error: Some(body) }
    }
}

/// The outcome of a probe that was not answered.
pub fn test_unanswered(status: Option<u16>, error: String) -> (r: TestResult)
    ensures
        !r.ok,
        r.status == status,
        r.output is None,
        text::opt_text(r.error) == Some(error@),
{
    TestResult { ok: false, status, output: None, error: Some(error) }
}

} // verus!
