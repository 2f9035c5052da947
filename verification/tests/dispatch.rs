use chrono::Utc;
use codex_gateway_core::account::unsigned_jwt;
use codex_gateway_core::gateway::answer::{
    adapt_response, adapt_response_at, build_chat_completion_payload, build_images_api_payload,
    chat_completion_at, extract_images, extract_output_text,
    extract_output_text_from_response_text, extract_response_id, image_list_at,
    previous_response_id, upstream_error, DispatchError, ResponseAdapter, UpstreamReply,
};
use codex_gateway_core::gateway::dispatch::{Action, Dispatch, Event};
use codex_gateway_core::gateway::http::HttpReply;
use codex_gateway_core::gateway::probe::{test_body, test_unanswered, test_url};
use codex_gateway_core::gateway::request::{Handled, ParsedGatewayRequest};
use codex_gateway_core::gateway::state::{failure_reply, Gateway};
use codex_gateway_core::json::{json_object, parse_json, print_json, Json};
use codex_gateway_core::{test_gateway, Account, GatewayKey, GatewayOptions};

fn parse(s: &str) -> Json {
    match parse_json(s.as_bytes()) {
        Ok(value) => value,
        Err(error) => panic!("{}", error),
    }
}

fn printed(value: &Json) -> String {
    String::from_utf8(print_json(value)).unwrap()
}

fn token_until(seconds: i64) -> String {
    unsigned_jwt(&json_object(vec![("exp", Json::Signed(seconds))]))
}

fn account(id: &str, access_token: &str, refresh_token: Option<&str>) -> Account {
    Account {
        id: id.to_string(),
        name: id.to_string(),
        email: format!("{}@x", id),
        account_id: None,
        organization_id: None,
        user_id: None,
        id_token: None,
        access_token: access_token.to_string(),
        refresh_token: refresh_token.map(str::to_string),
        imported_at: 0,
        updated_at: 0,
    }
}

fn fresh(id: &str) -> Account {
    account(id, &token_until(1_000_000), Some("r"))
}

fn gateway() -> Gateway {
    Gateway::new(
        GatewayKey("secret".to_string()),
        &GatewayOptions {
            host: "127.0.0.1".to_string(),
            port: 1,
            upstream_base_url: "https://up//".to_string(),
        },
    )
}

fn request(body: &str) -> ParsedGatewayRequest {
    ParsedGatewayRequest {
        method: "POST".to_string(),
        target: "/v1/responses".to_string(),
        headers: Vec::new(),
        body: body.as_bytes().to_vec(),
    }
}

fn answered(status: u16, body: &str) -> Event {
    Event::Answered {
        status,
        content_type: None,
        body: Ok(body.as_bytes().to_vec()),
    }
}

fn sent_token(action: &Action) -> String {
    match action {
        Action::Send(upstream) => upstream
            .headers
            .iter()
            .find(|h| h.name == "authorization")
            .map(|h| String::from_utf8(h.value.clone()).unwrap())
            .unwrap(),
        other => panic!("{:?}", other),
    }
}

fn failure(action: Action) -> (u16, String) {
    match action {
        Action::Fail(error) => (error.status, error.message),
        other => panic!("{:?}", other),
    }
}

fn bearer(token: &str) -> String {
    format!("Bearer {}", token)
}

fn reply(status: u16, body: &str) -> UpstreamReply {
    UpstreamReply {
        status,
        content_type: Some(b"application/json".to_vec()),
        body: body.as_bytes().to_vec(),
    }
}

fn json_body(reply: HttpReply) -> (u16, String) {
    match reply {
        HttpReply::Json { status, body } => (status, String::from_utf8(body).unwrap()),
        other => panic!("{:?}", other),
    }
}

/// A dispatch to accounts with the tokens `one` and `two`, at the second 1000.
fn two_accounts() -> (Dispatch, Action) {
    let mut one = fresh("one");
    one.access_token = token_until(10_000);
    let mut two = fresh("two");
    two.access_token = token_until(20_000);
    gateway().dispatch_at(request("{}"), vec![one, two], 1000)
}

#[test]
fn no_accounts_is_an_error() {
    let (_, action) = gateway().dispatch_at(request("{}"), Vec::new(), 1000);
    assert_eq!(failure(action), (503, "no accounts imported".to_string()));
}

#[test]
fn upstream_is_asked_for_the_account() {
    let (_, action) = two_accounts();
    match &action {
        Action::Send(upstream) => assert_eq!(upstream.url, "https://up/responses"),
        other => panic!("{:?}", other),
    }
    assert_eq!(sent_token(&action), bearer(&token_until(10_000)));
}

#[test]
fn success_is_the_answer() {
    let (mut dispatch, _) = two_accounts();
    match dispatch.step_at(answered(200, "{}"), 1000, 1) {
        Action::Finish { reply, account_id } => {
            assert_eq!(account_id, "one");
            assert_eq!(reply.status, 200);
            assert_eq!(reply.body, b"{}");
        }
        other => panic!("{:?}", other),
    }
}

#[test]
fn unreadable_success_fails() {
    let (mut dispatch, _) = two_accounts();
    let event = Event::Answered {
        status: 200,
        content_type: None,
        body: Err("cut".to_string()),
    };
    assert_eq!(
        failure(dispatch.step_at(event, 1000, 1)),
        (502, "read upstream failed: cut".to_string())
    );
}

#[test]
fn retryable_failure_tries_the_next_account() {
    let (mut dispatch, _) = two_accounts();
    let next = dispatch.step_at(answered(429, "slow"), 1000, 1);
    assert_eq!(sent_token(&next), bearer(&token_until(20_000)));
    assert_eq!(
        failure(dispatch.step_at(answered(503, "{\"error\":{\"message\":\"busy\"}}"), 1000, 1)),
        (503, "busy".to_string())
    );
}

#[test]
fn final_refusal_ends_the_dispatch() {
    let (mut dispatch, _) = two_accounts();
    assert_eq!(
        failure(dispatch.step_at(answered(400, ""), 1000, 1)),
        (400, "upstream returned 400 Bad Request".to_string())
    );
}

#[test]
fn failed_sending_tries_the_next_account() {
    let (mut dispatch, _) = two_accounts();
    let next = dispatch.step_at(Event::NotSent, 1000, 1);
    assert_eq!(sent_token(&next), bearer(&token_until(20_000)));
    assert_eq!(
        failure(dispatch.step_at(Event::NotSent, 1000, 1)),
        (502, "send upstream request".to_string())
    );
}

#[test]
fn refused_token_is_refreshed_once() {
    let (mut dispatch, _) = two_accounts();
    match dispatch.step_at(answered(401, ""), 1000, 1) {
        Action::Refresh(token) => assert_eq!(token, "r"),
        other => panic!("{:?}", other),
    }
    let refreshed = Event::Refreshed {
        status: 200,
        body: "{\"access_token\":\"new\"}".to_string(),
    };
    match dispatch.step_at(refreshed, 1000, 77) {
        Action::Save(account) => {
            assert_eq!(account.id, "one");
            assert_eq!(account.access_token, "new");
            assert_eq!(account.refresh_token.as_deref(), Some("r"));
            assert_eq!(account.updated_at, 77);
        }
        other => panic!("{:?}", other),
    }
    let again = dispatch.step_at(Event::Saved, 1000, 1);
    assert_eq!(sent_token(&again), "Bearer new");
    let next = dispatch.step_at(answered(401, ""), 1000, 1);
    assert_eq!(sent_token(&next), bearer(&token_until(20_000)));
}

#[test]
fn second_refusal_of_any_kind_tries_the_next_account() {
    let (mut dispatch, _) = two_accounts();
    dispatch.step_at(answered(401, ""), 1000, 1);
    dispatch.step_at(
        Event::Refreshed {
            status: 200,
            body: "{\"access_token\":\"new\"}".to_string(),
        },
        1000,
        1,
    );
    dispatch.step_at(Event::Saved, 1000, 1);
    let next = dispatch.step_at(answered(400, ""), 1000, 1);
    assert_eq!(sent_token(&next), bearer(&token_until(20_000)));
}

#[test]
fn refresh_failures_are_told() {
    let events = || {
        vec![
            (
                Event::Refreshed {
                    status: 500,
                    body: "four".to_string(),
                },
                "token refresh failed: status=500 Internal Server Error, body_len=4",
            ),
            (Event::RefreshNotSent, "send token refresh request"),
            (Event::RefreshNotRead, "read token refresh response"),
        ]
    };
    for (event, reason) in events() {
        let ending = account("one", &token_until(1000), Some("r"));
        let (mut dispatch, action) = gateway().dispatch_at(request("{}"), vec![ending], 1000);
        assert!(matches!(action, Action::Refresh(_)));
        assert_eq!(
            failure(dispatch.step_at(event, 1000, 1)),
            (401, format!("account one@x refresh failed: {}", reason))
        );
    }
    let ending = account("one", &token_until(1000), Some("r"));
    let (mut dispatch, _) = gateway().dispatch_at(request("{}"), vec![ending], 1000);
    dispatch.step_at(
        Event::Refreshed {
            status: 200,
            body: "{\"access_token\":\"new\"}".to_string(),
        },
        1000,
        1,
    );
    assert_eq!(
        failure(dispatch.step_at(Event::NotSaved("write /d".to_string()), 1000, 1)),
        (401, "account one@x refresh failed: write /d".to_string())
    );
}

#[test]
fn account_that_cannot_be_refreshed_is_passed_over() {
    let ended = account("one", &token_until(1000), None);
    let (_, action) =
        gateway().dispatch_at(request("{}"), vec![ended.clone(), fresh("two")], 1000);
    assert_eq!(sent_token(&action), bearer(&token_until(1_000_000)));
    let (_, action) = gateway().dispatch_at(request("{}"), vec![ended], 1000);
    assert_eq!(
        failure(action),
        (
            401,
            "account one@x refresh failed: account one@x has expired access token and no refresh token".to_string()
        )
    );
    let mut refused = fresh("one");
    refused.refresh_token = None;
    let (mut dispatch, _) = gateway().dispatch_at(request("{}"), vec![refused], 1000);
    assert_eq!(
        failure(dispatch.step_at(answered(401, ""), 1000, 1)),
        (401, "account one@x refresh failed: missing refresh token".to_string())
    );
}

#[test]
fn path_outside_the_version_is_not_sent() {
    let mut odd = request("{}");
    odd.target = "/v2/x".to_string();
    let (_, action) = gateway().dispatch_at(odd, vec![fresh("one")], 1000);
    assert_eq!(failure(action), (502, "only /v1 paths are supported".to_string()));
}

#[test]
fn requests_take_turns() {
    let mut gateway = gateway();
    let mut one = fresh("one");
    one.access_token = token_until(10_000);
    let mut two = fresh("two");
    two.access_token = token_until(20_000);
    let mut order: Vec<String> = Vec::new();
    for _ in 0..3 {
        let (_, action) =
            gateway.dispatch_at(request("{}"), vec![one.clone(), two.clone()], 1000);
        order.push(sent_token(&action));
    }
    assert_eq!(
        order,
        vec![
            bearer(&token_until(10_000)),
            bearer(&token_until(20_000)),
            bearer(&token_until(10_000))
        ]
    );
}

#[test]
fn follow_on_goes_to_the_same_account() {
    let mut gateway = gateway();
    let mut one = fresh("one");
    one.access_token = token_until(10_000);
    let mut two = fresh("two");
    two.access_token = token_until(20_000);
    let answer = gateway.finish_at(
        reply(200, "{\"id\":\"resp-1\"}"),
        &ResponseAdapter::Passthrough,
        "two".to_string(),
        "spare",
        1,
    );
    assert!(matches!(answer, HttpReply::Bytes { status: 200, .. }));
    let follow_on = "{\"previous_response_id\":\"resp-1\"}";
    let (_, action) =
        gateway.dispatch_at(request(follow_on), vec![one.clone(), two.clone()], 1000);
    assert_eq!(sent_token(&action), bearer(&token_until(20_000)));
    gateway.finish_at(
        reply(200, "{\"response\":{\"id\":\"resp-3\"}}"),
        &ResponseAdapter::ChatCompletions,
        "one".to_string(),
        "spare",
        1,
    );
    let (_, action) =
        gateway.dispatch_at(request(follow_on), vec![one.clone(), two.clone()], 1000);
    assert_eq!(sent_token(&action), bearer(&token_until(20_000)));
    let unknown = "{\"previous_response_id\":\"resp-2\"}";
    let (_, action) = gateway.dispatch_at(request(unknown), vec![one.clone(), two.clone()], 1000);
    assert_eq!(sent_token(&action), bearer(&token_until(10_000)));
    let (_, action) = gateway.dispatch_at(request("{}"), vec![one, two], 1000);
    assert_eq!(sent_token(&action), bearer(&token_until(10_000)));
}

#[test]
fn gateway_works_by_the_clock() {
    let mut gateway = gateway();
    let lasting = account("one", &token_until(Utc::now().timestamp() + 3600), Some("r"));
    let (mut dispatch, action) =
        gateway.dispatch_with_accounts(request("{}"), vec![lasting.clone()]);
    assert!(matches!(action, Action::Send(_)));
    let before = Utc::now().timestamp_millis();
    dispatch.step(answered(401, ""));
    match dispatch.step(Event::Refreshed {
        status: 200,
        body: "{\"access_token\":\"new\"}".to_string(),
    }) {
        Action::Save(account) => assert!(account.updated_at >= before),
        other => panic!("{:?}", other),
    }
    let done = gateway.finish(
        reply(200, "{\"id\":\"resp-1\"}"),
        &ResponseAdapter::ChatCompletions,
        "one".to_string(),
    );
    assert_eq!(json_body(done).0, 200);
}

#[test]
fn gateway_handles_by_its_key() {
    match gateway().handle(request("{}")) {
        Handled::Reply(HttpReply::Json { status, .. }) => assert_eq!(status, 401),
        other => panic!("{:?}", other),
    }
}

#[test]
fn failures_are_answered_as_json() {
    assert_eq!(
        json_body(failure_reply(&DispatchError::unavailable("read /d".to_string()))),
        (
            503,
            "{\"error\":{\"code\":503,\"message\":\"read /d\",\"type\":\"codex_gateway_error\"}}"
                .to_string()
        )
    );
}

#[test]
fn upstream_errors_say_why() {
    let said = |status: u16, body: &str| upstream_error(status, body).message;
    assert_eq!(said(500, "{\"error\":{\"message\":\"m\"}}"), "m");
    assert_eq!(said(500, "{\"error\":\"e\"}"), "e");
    assert_eq!(said(500, "{\"error\":{\"message\":1},\"message\":\"top\"}"), "top");
    assert_eq!(said(500, "{\"message\":\"top\"}"), "top");
    assert_eq!(said(500, "plain"), "plain");
    assert_eq!(said(599, " \n"), "upstream returned 599 <unknown status code>");
    assert_eq!(upstream_error(429, "x").status, 429);
}

#[test]
fn response_identifiers_are_found() {
    assert_eq!(extract_response_id(&parse("{\"id\":\"a\"}")).as_deref(), Some("a"));
    assert_eq!(
        extract_response_id(&parse("{\"response\":{\"id\":\"b\"}}")).as_deref(),
        Some("b")
    );
    assert_eq!(extract_response_id(&parse("{\"id\":1}")), None);
    assert_eq!(
        previous_response_id(b"{\"previous_response_id\":\"p\"}").as_deref(),
        Some("p")
    );
    assert_eq!(previous_response_id(b"no"), None);
}

#[test]
fn output_text_is_collected() {
    let response = parse(
        "{\"output\":[{\"type\":\"message\",\"content\":[{\"type\":\"output_text\",\"text\":\"po\"},{\"type\":\"output_text\",\"text\":\"ng\"}]}]}",
    );
    assert_eq!(extract_output_text(&response), "pong");
    assert_eq!(extract_output_text(&parse("{\"output_text\":\"direct\"}")), "direct");
    assert_eq!(
        extract_output_text_from_response_text("{\"output_text\":\"direct\"}"),
        "direct"
    );
    assert_eq!(extract_output_text_from_response_text("no JSON"), "no JSON");
}

#[test]
fn chat_completion_says_the_text() {
    let response = parse("{\"id\":\"r1\",\"output_text\":\"hi\",\"usage\":{\"total\":3}}");
    assert_eq!(
        printed(&chat_completion_at(&response, "spare", 9)),
        "{\"choices\":[{\"finish_reason\":\"stop\",\"index\":0,\"message\":{\"content\":\"hi\",\"role\":\"assistant\"}}],\"created\":9,\"id\":\"r1\",\"model\":\"gpt-5-codex\",\"object\":\"chat.completion\",\"usage\":{\"total\":3}}"
    );
    let nameless = chat_completion_at(&parse("{\"model\":\"m\"}"), "spare", 9);
    assert_eq!(nameless.get_text("id").unwrap(), "chatcmpl-spare");
    assert_eq!(nameless.get_text("model").unwrap(), "m");
    assert!(nameless.get("usage").unwrap().is_null());
    let made = build_chat_completion_payload(&parse("{}"));
    assert_eq!(made.get_text("id").unwrap().len(), 9 + 36);
    assert!(made.get("created").unwrap().as_i64().unwrap() > 1_600_000_000);
}

#[test]
fn image_list_holds_the_images() {
    let response = parse(
        "{\"output\":[{\"type\":\"image_generation_call\",\"result\":\"data:image/png;base64,QUJD\"},{\"type\":\"image_generation_call\",\"result\":\"http://i\"}]}",
    );
    let images = extract_images(&response);
    assert_eq!(images, vec!["QUJD", "http://i"]);
    let long = "A".repeat(65);
    let plain = parse(&format!("{{\"b64_json\":\"{}\",\"url\":\"short\"}}", long));
    assert_eq!(extract_images(&plain), vec![long]);
    let listed = printed(&image_list_at(&response, "url", 9));
    assert!(listed.contains("{\"b64_json\":\"QUJD\"}"));
    assert!(listed.contains("{\"url\":\"http://i\"}"));
    assert!(listed.contains("\"created\":9"));
    assert!(!printed(&image_list_at(&response, "b64_json", 9)).contains("\"url\""));
    let made = build_images_api_payload(&response, "b64_json");
    assert!(made.get("created").unwrap().as_i64().unwrap() > 1_600_000_000);
}

#[test]
fn answers_are_adapted() {
    let chat = ResponseAdapter::ChatCompletions;
    let images = ResponseAdapter::Images {
        response_format: "url".to_string(),
    };
    let (answer, id) = adapt_response_at(reply(500, "x"), &chat, "s", 1);
    assert!(matches!(answer, HttpReply::Bytes { status: 500, .. }));
    assert_eq!(id, None);
    let (answer, id) = adapt_response_at(reply(200, "{\"id\":\"a\"}"), &chat, "s", 1);
    assert_eq!(json_body(answer).0, 200);
    assert_eq!(id.as_deref(), Some("a"));
    let (answer, _) = adapt_response_at(reply(200, "no"), &chat, "s", 1);
    let (status, body) = json_body(answer);
    assert_eq!(status, 502);
    assert!(body.contains("parse upstream chat payload failed: expected ident"));
    let (answer, id) = adapt_response_at(reply(200, "{\"id\":\"a\"}"), &images, "s", 1);
    assert_eq!(json_body(answer), (200, "{\"created\":1,\"data\":[]}".to_string()));
    assert_eq!(id, None);
    let (answer, _) = adapt_response_at(reply(200, "no"), &images, "s", 1);
    assert!(json_body(answer).1.contains("parse upstream image payload failed: "));
    let (answer, id) = adapt_response(reply(201, "raw"), &ResponseAdapter::Passthrough);
    match answer {
        HttpReply::Bytes {
            status,
            content_type,
            body,
        } => {
            assert_eq!(status, 201);
            assert_eq!(content_type.as_deref(), Some(&b"application/json"[..]));
            assert_eq!(body, b"raw");
        }
        other => panic!("{:?}", other),
    }
    assert_eq!(id, None);
}

#[test]
fn probe_reports_what_it_found() {
    assert_eq!(test_url("http://127.0.0.1:8080//"), "http://127.0.0.1:8080/v1/responses");
    assert_eq!(
        String::from_utf8(test_body("m")).unwrap(),
        "{\"input\":\"Reply with exactly: pong\",\"model\":\"m\",\"store\":false,\"stream\":false}"
    );
    let good = test_gateway(200, "{\"output_text\":\"pong\"}".to_string());
    assert!(good.ok);
    assert_eq!(good.status, Some(200));
    assert_eq!(good.output.as_deref(), Some("pong"));
    assert_eq!(good.error, None);
    let bad = test_gateway(401, "no".to_string());
    assert!(!bad.ok);
    assert_eq!(bad.error.as_deref(), Some("no"));
    assert_eq!(bad.output, None);
    let silent = test_unanswered(None, "refused".to_string());
    assert!(!silent.ok);
    assert_eq!(silent.status, None);
    assert_eq!(silent.error.as_deref(), Some("refused"));
}

#[test]
fn every_account_has_its_turn() {
    let mut gateway = gateway();
    let accounts: Vec<Account> = (1..4i64)
        .map(|i| account(&format!("a{}", i), &token_until(10_000 * i), None))
        .collect();
    gateway.dispatch_at(request("{}"), accounts.clone(), 1000);
    let mut order: Vec<String> = Vec::new();
    for _ in 0..3 {
        let (_, action) = gateway.dispatch_at(request("{}"), accounts.clone(), 1000);
        order.push(sent_token(&action));
    }
    assert_eq!(
        order,
        vec![
            bearer(&token_until(20_000)),
            bearer(&token_until(30_000)),
            bearer(&token_until(10_000))
        ]
    );
}
